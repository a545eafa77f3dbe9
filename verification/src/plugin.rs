//! The plugin of the shell in the profile of dsh, and the versions that
//! package files state.
use vstd::prelude::*;

use crate::json::{self, Json, JsonTree};
use crate::profile;
use crate::text;

verus! {

/// The name of the plugin that the shell brings along.
pub const SHELL_PLUGIN_NAME: &'static str = "dsh-desktop-shell";

/// The version shown where none is known.
pub const UNKNOWN_VERSION: &'static str = "未知";

// Versions of packages.

/// The version that the text of a `package.json` states, where it states one.
pub open spec fn package_version(text: Seq<char>) -> Option<Seq<char>> {
    match json::json_text(text) {
        Ok(t) => json::text_member(t, "version"@),
        Err(_) => None,
    }
}

/// The version that a `package.json` states; none where the file cannot be
/// read.
pub open spec fn file_version(file: Option<Seq<char>>) -> Option<Seq<char>> {
    match file {
        Some(text) => package_version(text),
        None => None,
    }
}

/// The version in a document.
pub fn document_version(doc: &Json) -> (r: Option<String>)
    ensures
        text::maybe_owned(r) == json::text_member(doc@, "version"@),
{
    match doc.get_text("version") {
        Some(v) => Some(v.to_owned()),
        None => None,
    }
}

/// Reads the version out of the text of a `package.json`.
pub fn read_pkg_version(text: &str) -> (r: Option<String>)
    ensures
        text::maybe_owned(r) == package_version(text@),
{
    match json::parse_json(text) {
        Ok(doc) => document_version(&doc),
        Err(_) => None,
    }
}

/// The version of an installed dsh, given the text of its `package.json`
/// where that can be read.
pub fn installed_dsh_version(pkg: Option<&str>) -> (r: Option<String>)
    ensures
        text::maybe_owned(r) == file_version(text::maybe(pkg)),
{
    match pkg {
        Some(text) => read_pkg_version(text),
        None => None,
    }
}

/// The version of dsh in use: that of the bundled package, else that of the
/// globally installed one, else unknown.
pub fn current_dsh_version(bundled: Option<&str>, global: Option<&str>) -> (r: String)
    ensures
        r@ == match file_version(text::maybe(bundled)) {
            Some(v) => v,
            None => match file_version(text::maybe(global)) {
                Some(v) => v,
                None => UNKNOWN_VERSION@,
            },
        },
{
    match installed_dsh_version(bundled) {
        Some(v) => v,
        None => match installed_dsh_version(global) {
            Some(v) => v,
            None => UNKNOWN_VERSION.to_owned(),
        },
    }
}

// What to do about the plugin at the start.

/// What has to be done so that dsh loads the plugin of the shell.
#[derive(Clone, Copy, PartialEq, Eq, Structural, Debug)]
pub enum PluginPlan {
    /// It is installed in the right version, and listed.
    UpToDate,
    /// There is no profile yet; the next start tries again.
    NoProfile,
    /// The list of bundles has to be looked after; the files of the plugin are
    /// copied first where `copy` says so.
    Install { copy: bool },
}

/// Whether the list of bundles holds the plugin.
pub open spec fn lists_plugin(t: JsonTree, name: Seq<char>) -> bool {
    match profile::bundles_of(t) {
        Some(items) => items.contains(JsonTree::Text(name)),
        None => false,
    }
}

/// Whether the profile, where it can be read, lists the plugin of the shell.
pub open spec fn profile_lists_shell(file: Option<Seq<char>>) -> bool {
    match file {
        Some(text) => match json::json_text(text) {
            Ok(t) => lists_plugin(t, SHELL_PLUGIN_NAME@),
            Err(_) => false,
        },
        None => false,
    }
}

/// The plan for the versions that were found.
pub open spec fn plan_for(
    bundled: Option<Seq<char>>,
    installed: Option<Seq<char>>,
    listed: bool,
    profile_exists: bool,
) -> PluginPlan {
    if listed && installed is Some && installed == bundled {
        PluginPlan::UpToDate
    } else if !profile_exists {
        PluginPlan::NoProfile
    } else {
        PluginPlan::Install { copy: installed != bundled }
    }
}

/// Whether a document is a string with the given characters.
fn is_text(j: &Json, name: &str) -> (r: bool)
    ensures
        r == (j@ == JsonTree::Text(name@)),
{
    match j.as_text() {
        Some(s) => text::same_text(s, name),
        None => false,
    }
}

/// Whether one of the documents is the string `name`.
fn has_text(items: &Vec<Json>, name: &str) -> (r: bool)
    ensures
        r == json::trees(items@).contains(JsonTree::Text(name@)),
{
    for i in 0..items.len()
        invariant
            forall|k: int| 0 <= k < i ==> json::trees(items@)[k] != JsonTree::Text(name@),
    {
        if is_text(&items[i], name) {
            assert(json::trees(items@)[i as int] == JsonTree::Text(name@));
            return true;
        }
    }
    false
}

/// Whether a `package.json` lists the plugin.
pub fn is_listed(doc: &Json, name: &str) -> (r: bool)
    ensures
        r == lists_plugin(doc@, name@),
{
    let names = profile::bundles_names();
    assert(profile::bundles_path().skip(0) =~= profile::bundles_path());
    match json::find_path(doc, &names, 0) {
        Some(Json::Array(items)) => {
            proof {
                json::lemma_view_array(*items);
            }
            has_text(items, name)
        },
        _ => false,
    }
}

/// Whether two optional versions are the same.
pub fn same_version(a: &Option<String>, b: &Option<String>) -> (r: bool)
    ensures
        r == (text::maybe_owned(*a) == text::maybe_owned(*b)),
{
    match (a, b) {
        (Some(x), Some(y)) => *x == *y,
        (None, None) => true,
        _ => false,
    }
}

/// Decides what has to be done about the plugin, given the version that is
/// brought along, the one that is installed, whether the profile lists the
/// plugin, and whether there is a profile.
pub fn plan_plugin(
    bundled: &Option<String>,
    installed: &Option<String>,
    listed: bool,
    profile_exists: bool,
) -> (r: PluginPlan)
    ensures
        r == plan_for(
            text::maybe_owned(*bundled),
            text::maybe_owned(*installed),
            listed,
            profile_exists,
        ),
{
    let same = same_version(installed, bundled);
    if listed && installed.is_some() && same {
        PluginPlan::UpToDate
    } else if !profile_exists {
        PluginPlan::NoProfile
    } else {
        PluginPlan::Install { copy: !same }
    }
}

/// Decides what has to be done about the plugin of the shell. The arguments are
/// the texts of the `package.json` of the plugin that is brought along, of the
/// one that is installed and of the profile, each where it can be read, and
/// whether the last exists.
pub fn ensure_shell_plugin(
    bundled: Option<&str>,
    installed: Option<&str>,
    profile_pkg: Option<&str>,
    profile_exists: bool,
) -> (r: PluginPlan)
    ensures
        r == plan_for(
            file_version(text::maybe(bundled)),
            file_version(text::maybe(installed)),
            profile_lists_shell(text::maybe(profile_pkg)),
            profile_exists,
        ),
{
    let bundled_version = installed_dsh_version(bundled);
    let installed_version = installed_dsh_version(installed);
    let listed = match profile_pkg {
        Some(text) => match json::parse_json(text) {
            Ok(doc) => is_listed(&doc, SHELL_PLUGIN_NAME),
            Err(_) => false,
        },
        None => false,
    };
    plan_plugin(&bundled_version, &installed_version, listed, profile_exists)
}

// Listing the plugin.

/// What listing a plugin comes to.
pub enum Registration {
    /// The new text of the `package.json`.
    Write(String),
    /// It is listed already; nothing is written.
    Listed,
    /// There is no list of bundles; nothing is written.
    NoBundles,
    /// The text is no JSON, with the message; nothing is written.
    NoJson(String),
}

/// The document with the plugin behind the last entry of its list.
pub open spec fn with_plugin(t: JsonTree, name: Seq<char>) -> JsonTree {
    profile::with_bundles(t, profile::bundles_of(t)->0.push(JsonTree::Text(name)))
}

/// Lists a plugin in a `package.json` behind the other bundles; gives the
/// document, and whether that was done.
pub fn add_bundle(doc: Json, name: &str) -> (r: (Json, bool))
    ensures
        r.1 == (profile::bundles_of(doc@) is Some && !lists_plugin(doc@, name@)),
        r.1 ==> r.0@ == with_plugin(doc@, name@),
        !r.1 ==> r.0@ == doc@,
        json::well_formed(doc@, json::max_depth()) ==> json::well_formed(
            r.0@,
            json::max_depth(),
        ),
{
    if is_listed(&doc, name) {
        return (doc, false);
    }
    let ghost whole = doc@;
    match profile::take_bundles(doc) {
        Ok((rest, items)) => {
            let ghost old_items = json::trees(items@);
            let mut items = items;
            items.push(Json::Text(name.to_owned()));
            proof {
                assert(json::trees(items@) =~= old_items.push(JsonTree::Text(name@)));
                if json::well_formed(whole, json::max_depth()) {
                    assert forall|i: int| 0 <= i < json::trees(items@).len() implies (
                    old_items.contains(#[trigger] json::trees(items@)[i]) || json::trees(
                        items@,
                    )[i] is Text) by {
                        if i < old_items.len() {
                            assert(json::trees(items@)[i] == old_items[i]);
                        }
                    }
                    profile::lemma_bundles_well_formed(whole, json::trees(items@));
                }
            }
            (profile::put_bundles(rest, items, Ghost(whole)), true)
        },
        Err(same) => (same, false),
    }
}

/// Lists the plugin of the shell in the text of the profile's `package.json`.
///
/// A text that is written lists the plugin when it is read again. It fails to be
/// read only where a number other than an integer of 64 bits occurs in the
/// document.
pub fn register_shell_plugin(text: &str) -> (r: Registration)
    ensures
        match json::json_text(text@) {
            Err(e) => r matches Registration::NoJson(message) && message@ == e,
            Ok(t) => if profile::bundles_of(t) is None {
                r is NoBundles
            } else if lists_plugin(t, SHELL_PLUGIN_NAME@) {
                r is Listed
            } else {
                r matches Registration::Write(out) && out@ == json::json_pretty(
                    with_plugin(t, SHELL_PLUGIN_NAME@),
                ).push('\n')
            },
        },
        r is Write ==> {
            &&& json::reads_back(
                r->Write_0@,
                with_plugin(json::json_text(text@)->Ok_0, SHELL_PLUGIN_NAME@),
            )
            &&& json::json_text(r->Write_0@) is Ok ==> profile_lists_shell(Some(r->Write_0@))
            &&& json::json_text(r->Write_0@) is Err ==> !json::no_floats(
                json::json_text(text@)->Ok_0,
            )
        },
{
    let doc = match json::parse_json(text) {
        Ok(doc) => doc,
        Err(e) => {
            return Registration::NoJson(e);
        },
    };
    let ghost whole = doc@;
    let listed = is_listed(&doc, SHELL_PLUGIN_NAME);
    let (doc, added) = add_bundle(doc, SHELL_PLUGIN_NAME);
    if added {
        proof {
            lemma_added_plugin_is_listed(whole, SHELL_PLUGIN_NAME@);
        }
        let ghost longer = doc@;
        let mut out = json::render_json(doc);
        out.push('\n');
        proof {
            if json::json_text(out@) is Ok {
                lemma_alike_lists_too(json::json_text(out@)->Ok_0, longer, SHELL_PLUGIN_NAME@);
            }
        }
        Registration::Write(out)
    } else if listed {
        Registration::Listed
    } else {
        Registration::NoBundles
    }
}

/// Listing a plugin lists it, keeps the entries before it, and keeps a document
/// without fractions so; listing it once more therefore changes nothing.
pub proof fn lemma_added_plugin_is_listed(t: JsonTree, name: Seq<char>)
    requires
        profile::bundles_of(t) is Some,
    ensures
        lists_plugin(with_plugin(t, name), name),
        profile::bundles_of(with_plugin(t, name)) == Some(
            profile::bundles_of(t)->0.push(JsonTree::Text(name)),
        ),
        json::no_floats(t) ==> json::no_floats(with_plugin(t, name)),
{
    let items = profile::bundles_of(t)->0;
    let more = items.push(JsonTree::Text(name));
    json::lemma_set_path_here(
        t,
        profile::bundles_path(),
        JsonTree::Array(more),
        JsonTree::Null,
    );
    assert(more[items.len() as int] == JsonTree::Text(name));
    if json::no_floats(t) {
        json::lemma_set_path_no_floats(t, profile::bundles_path(), JsonTree::Null);
        assert(json::no_floats(JsonTree::Array(items)));
        assert forall|i: int| 0 <= i < more.len() implies json::no_floats(
            #[trigger] more[i],
        ) by {
            if i < items.len() {
                assert(json::no_floats(items[i]));
            }
        }
        json::lemma_set_path_no_floats(t, profile::bundles_path(), JsonTree::Array(more));
    }
}

/// A document like one that lists a plugin lists it too.
pub proof fn lemma_alike_lists_too(a: JsonTree, b: JsonTree, name: Seq<char>)
    requires
        json::alike(a, b),
        lists_plugin(b, name),
    ensures
        lists_plugin(a, name),
{
    json::lemma_alike_at_path(a, b, profile::bundles_path());
    let x = profile::bundles_of(a)->0;
    let y = profile::bundles_of(b)->0;
    let i = choose|i: int| 0 <= i < y.len() && y[i] == JsonTree::Text(name);
    assert(json::alike(x[i], y[i]));
    assert(x[i] == JsonTree::Text(name));
}

/// Once the plugin was copied and listed, the next start leaves everything as it
/// is: the installed version is then the one that is brought along, and listing
/// the plugin in a document makes the document list it.
pub proof fn lemma_second_start_changes_nothing(
    t: JsonTree,
    version: Seq<char>,
    profile_exists: bool,
)
    requires
        profile::bundles_of(t) is Some,
    ensures
        plan_for(
            Some(version),
            Some(version),
            lists_plugin(with_plugin(t, SHELL_PLUGIN_NAME@), SHELL_PLUGIN_NAME@),
            profile_exists,
        ) == PluginPlan::UpToDate,
{
    lemma_added_plugin_is_listed(t, SHELL_PLUGIN_NAME@);
}

/// Taking a plugin out of the list undoes putting it in: a document that did not
/// list the plugin is as it was before.
pub proof fn lemma_repair_undoes_listing(t: JsonTree, name: Seq<char>)
    requires
        profile::bundles_of(t) is Some,
        !lists_plugin(t, name),
    ensures
        profile::repaired(with_plugin(t, name), seq![name]) == Ok::<(JsonTree, int), Seq<char>>(
            (t, 1),
        ),
{
    let items = profile::bundles_of(t)->0;
    let more = items.push(JsonTree::Text(name));
    lemma_added_plugin_is_listed(t, name);
    assert forall|i: int| 0 <= i < items.len() implies !profile::is_named(
        #[trigger] items[i],
        seq![name],
    ) by {
        assert(items.contains(items[i]));
    }
    profile::lemma_unnamed_entries_stay(items, seq![name]);
    assert(more.drop_last() =~= items);
    assert(seq![name][0] == name);
    assert(profile::is_named(more.last(), seq![name]));
    assert(profile::kept_entries(more, seq![name]) == items);
    json::lemma_set_path_here(
        t,
        profile::bundles_path(),
        JsonTree::Array(more),
        JsonTree::Array(items),
    );
    profile::lemma_put_back(t, profile::bundles_path());
}

/// Listing a plugin changes nothing outside the list of bundles.
pub proof fn lemma_listing_touches_bundles_only(
    t: JsonTree,
    name: Seq<char>,
    path: Seq<Seq<char>>,
)
    requires
        profile::bundles_of(t) is Some,
        !profile::bundles_path().is_prefix_of(path),
        !path.is_prefix_of(profile::bundles_path()),
    ensures
        json::at_path(with_plugin(t, name), path) == json::at_path(t, path),
{
    json::lemma_set_path_elsewhere(
        t,
        profile::bundles_path(),
        JsonTree::Array(profile::bundles_of(t)->0.push(JsonTree::Text(name))),
        path,
    );
}

/// What is done about the plugin at the start: nothing exactly where the profile
/// lists it and its installed version is known and is the one that is brought
/// along; otherwise the files are copied exactly where the versions differ, and
/// nothing is touched as long as there is no profile.
pub proof fn lemma_what_is_done_about_the_plugin(
    bundled: &Option<String>,
    installed: &Option<String>,
    listed: bool,
    profile_exists: bool,
    r: PluginPlan,
)
    requires
        call_ensures(plan_plugin, (bundled, installed, listed, profile_exists), r),
    ensures
        ({
            let same = (*bundled is Some && *installed is Some && (*bundled)->0@
                == (*installed)->0@) || (*bundled is None && *installed is None);
            &&& r == PluginPlan::UpToDate <==> listed && *installed is Some && same
            &&& r == PluginPlan::NoProfile <==> !profile_exists && !(listed
                && *installed is Some && same)
            &&& r == (PluginPlan::Install { copy: true }) <==> profile_exists && !same
            &&& r == (PluginPlan::Install { copy: false }) <==> profile_exists && same && !(listed
                && *installed is Some)
        }),
{
}

/// The version in use is that of the package that is brought along, where it states
/// one, else that of the global installation, else unknown; a package states the
/// version that its document holds as a text under `version`.
pub proof fn lemma_version_in_use(
    bundled: Option<&str>,
    global: Option<&str>,
    r: String,
    first: Option<String>,
    second: Option<String>,
)
    requires
        call_ensures(current_dsh_version, (bundled, global), r),
        call_ensures(installed_dsh_version, (bundled,), first),
        call_ensures(installed_dsh_version, (global,), second),
    ensures
        first is Some ==> r@ == first->0@,
        first is None && second is Some ==> r@ == second->0@,
        first is None && second is None ==> r@ == "未知"@,
        first is Some <==> (bundled is Some && (json::json_text(bundled->0@) matches Ok(t)
            && json::member(t, "version"@) is Some && json::member(t, "version"@)->0 is Text)),
        first is Some ==> json::member(json::json_text(bundled->0@)->Ok_0, "version"@) == Some(
            JsonTree::Text(first->0@),
        ),
{
}

/// A plugin is listed exactly where its name is an entry of the list of bundles.
pub proof fn lemma_listed_plugins(t: JsonTree, name: Seq<char>)
    ensures
        lists_plugin(t, name) <==> (json::at_path(
            t,
            seq!["dsh"@, "profile"@, "bundles"@],
        ) matches Some(JsonTree::Array(items)) && exists|i: int|
            0 <= i < items.len() && #[trigger] items[i] == JsonTree::Text(name)),
{
    if profile::bundles_of(t) is Some {
        let items = profile::bundles_of(t)->0;
        if items.contains(JsonTree::Text(name)) {
            let i = choose|i: int| 0 <= i < items.len() && items[i] == JsonTree::Text(name);
            assert(items[i] == JsonTree::Text(name));
        }
    }
}

/// What listing the plugin of the shell comes to: a new text is written exactly
/// where the profile has a list of bundles that does not hold the plugin, and then
/// the list is as before, with the plugin behind it.
pub proof fn lemma_listing_the_shell(text: &str, r: Registration, t: JsonTree)
    requires
        call_ensures(register_shell_plugin, (text,), r),
        json::json_text(text@) == Ok::<JsonTree, Seq<char>>(t),
    ensures
        r is NoBundles <==> !(json::at_path(
            t,
            seq!["dsh"@, "profile"@, "bundles"@],
        ) matches Some(JsonTree::Array(_))),
        r is Listed <==> lists_plugin(t, "dsh-desktop-shell"@),
        r matches Registration::Write(out) ==> exists|after: JsonTree| #[trigger]
            json::json_pretty(after) + seq!['\n'] == out@ && json::at_path(
                after,
                seq!["dsh"@, "profile"@, "bundles"@],
            ) == Some(
                JsonTree::Array(
                    json::at_path(
                        t,
                        seq!["dsh"@, "profile"@, "bundles"@],
                    )->0->Array_0.push(JsonTree::Text("dsh-desktop-shell"@)),
                ),
            ),
        !(r is NoJson),
{
    if let Registration::Write(out) = r {
        lemma_added_plugin_is_listed(t, SHELL_PLUGIN_NAME@);
        let after = with_plugin(t, SHELL_PLUGIN_NAME@);
        assert(json::json_pretty(after).push('\n') =~= json::json_pretty(after) + seq!['\n']);
        assert(json::json_pretty(after) + seq!['\n'] == out@);
    }
}

/// What is done about the plugin goes by the versions that the packages state and by
/// whether the profile lists the plugin of the shell; adding a plugin to a document
/// is done exactly where there is a list that does not hold it, and leaves the
/// document as it is otherwise.
pub proof fn lemma_calls(
    bundled: Option<&str>,
    installed: Option<&str>,
    profile_pkg: Option<&str>,
    profile_exists: bool,
    r: PluginPlan,
    doc: Json,
    name: &str,
    added: (Json, bool),
)
    requires
        call_ensures(ensure_shell_plugin, (bundled, installed, profile_pkg, profile_exists), r),
        call_ensures(add_bundle, (doc, name), added),
    ensures
        ({
            let (b, i) = (file_version(text::maybe(bundled)), file_version(text::maybe(installed)));
            let listed = profile_pkg is Some && json::json_text(profile_pkg->0@) is Ok
                && lists_plugin(json::json_text(profile_pkg->0@)->Ok_0, "dsh-desktop-shell"@);
            &&& r == PluginPlan::UpToDate <==> listed && i is Some && i == b
            &&& r == PluginPlan::NoProfile <==> !profile_exists && !(listed && i is Some && i
                == b)
            &&& r matches PluginPlan::Install { copy } ==> (copy <==> i != b)
        }),
        added.1 <==> profile::bundles_of(doc@) is Some && !lists_plugin(doc@, name@),
        !added.1 ==> added.0@ == doc@,
        added.1 ==> profile::bundles_of(added.0@) == Some(
            profile::bundles_of(doc@)->0.push(JsonTree::Text(name@)),
        ),
{
    if added.1 {
        lemma_added_plugin_is_listed(doc@, name@);
    }
}

} // verus!
