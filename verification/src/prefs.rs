//! What the user wants to be told about updates.
use vstd::prelude::*;

use crate::text;

verus! {

/// The wishes of the user about updates, which are kept in a file.
pub struct UpdatePrefs {
    /// Whether to look for updates at the start.
    pub auto_check: bool,
    /// The version of which the user does not want to be told again.
    pub skip_update_version: String,
}

/// What `auto_check` is where the file does not say.
pub fn default_true() -> (r: bool)
    ensures
        r,
{
    true
}

impl Default for UpdatePrefs {
    fn default() -> (r: Self)
        ensures
            r.auto_check,
            r.skip_update_version@ == Seq::<char>::empty(),
    {
        UpdatePrefs { auto_check: true, skip_update_version: String::new() }
    }
}

/// The wishes that the file states; the usual ones where there is no file that
/// can be read.
pub fn load_prefs(read: Option<UpdatePrefs>) -> (r: UpdatePrefs)
    ensures
        match read {
            Some(prefs) => r == prefs,
            None => r.auto_check && r.skip_update_version@ == Seq::<char>::empty(),
        },
{
    match read {
        Some(prefs) => prefs,
        None => UpdatePrefs::default(),
    }
}

/// The wishes with another version to skip.
pub fn set_update_prompt_pref(prefs: UpdatePrefs, version: String) -> (r: UpdatePrefs)
    ensures
        r.auto_check == prefs.auto_check,
        r.skip_update_version == version,
{
    UpdatePrefs { auto_check: prefs.auto_check, skip_update_version: version }
}

/// The wishes with another answer on whether to look for updates.
pub fn set_auto_check(prefs: UpdatePrefs, enabled: bool) -> (r: UpdatePrefs)
    ensures
        r.auto_check == enabled,
        r.skip_update_version == prefs.skip_update_version,
{
    UpdatePrefs { auto_check: enabled, skip_update_version: prefs.skip_update_version }
}

/// Whether the user is asked at the start about a newer version.
pub open spec fn prompts(auto_check: bool, skipped: Seq<char>, latest: Option<Seq<char>>) -> bool {
    auto_check && latest is Some && latest->0 != skipped
}

/// Whether the user is asked at the start, given the newer version that was
/// found, where there is one.
pub fn startup_check_app_update(prefs: &UpdatePrefs, latest: Option<&str>) -> (r: bool)
    ensures
        r == prompts(prefs.auto_check, prefs.skip_update_version@, text::maybe(latest)),
{
    match latest {
        Some(version) => prefs.auto_check && !text::same_text(
            version,
            prefs.skip_update_version.as_str(),
        ),
        None => false,
    }
}

/// A version that the user does not want to be told of is not asked about
/// again, and any other newer one still is.
pub proof fn lemma_only_skipped_version_is_silent(version: Seq<char>, other: Seq<char>)
    requires
        other != version,
    ensures
        !prompts(true, version, Some(version)),
        prompts(true, version, Some(other)),
{
}

/// The user is asked at the start exactly where updates are looked for, a newer
/// version was found, and it is not the one to be skipped; the two wishes are kept
/// and changed apart from each other.
pub proof fn lemma_wishes(
    prefs: UpdatePrefs,
    latest: Option<&str>,
    asked: bool,
    version: String,
    skipping: UpdatePrefs,
    enabled: bool,
    checking: UpdatePrefs,
    loaded: UpdatePrefs,
    usual: UpdatePrefs,
    missing: bool,
)
    requires
        call_ensures(startup_check_app_update, (&prefs, latest), asked),
        call_ensures(set_update_prompt_pref, (prefs, version), skipping),
        call_ensures(set_auto_check, (prefs, enabled), checking),
        call_ensures(load_prefs, (Some(prefs),), loaded),
        call_ensures(load_prefs, (None::<UpdatePrefs>,), usual),
        call_ensures(default_true, (), missing),
    ensures
        asked <==> prefs.auto_check && latest is Some && latest->0@ != prefs.skip_update_version@,
        skipping.auto_check == prefs.auto_check && skipping.skip_update_version@ == version@,
        checking.auto_check == enabled && checking.skip_update_version@
            == prefs.skip_update_version@,
        loaded == prefs,
        usual.auto_check && usual.skip_update_version@.len() == 0,
        missing,
{
}

} // verus!
