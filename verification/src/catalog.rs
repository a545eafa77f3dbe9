//! The list of versions to choose from.
use vstd::prelude::*;

use crate::text;
use crate::version;

verus! {

/// A version in the list.
pub struct VersionEntry {
    pub version: String,
    /// Whether it is a pre-release.
    pub prerelease: bool,
    /// Whether it is the installed one.
    pub is_current: bool,
    /// Its tags on npm.
    pub tags: Vec<String>,
}

/// What an entry holds.
#[verifier::ext_equal]
pub struct Entry {
    pub version: Seq<char>,
    pub prerelease: bool,
    pub is_current: bool,
    pub tags: Seq<Seq<char>>,
}

impl View for VersionEntry {
    type V = Entry;

    open spec fn view(&self) -> Entry {
        Entry {
            version: self.version@,
            prerelease: self.prerelease,
            is_current: self.is_current,
            tags: text::texts(self.tags@),
        }
    }
}

/// What the entries of a list hold.
pub open spec fn entries(v: Seq<VersionEntry>) -> Seq<Entry> {
    v.map_values(|e: VersionEntry| e@)
}

/// The tags of a version, given the versions with the tags.
pub open spec fn tags_of(
    v: Seq<char>,
    latest: Option<Seq<char>>,
    alpha: Option<Seq<char>>,
) -> Seq<Seq<char>> {
    (if latest == Some(v) {
        seq!["latest"@]
    } else {
        seq![]
    }) + (if alpha == Some(v) {
        seq!["alpha"@]
    } else {
        seq![]
    })
}

/// The entry for a version.
pub open spec fn entry_for(
    v: Seq<char>,
    current: Seq<char>,
    latest: Option<Seq<char>>,
    alpha: Option<Seq<char>>,
) -> Entry {
    Entry {
        version: v,
        prerelease: version::is_prerelease(v),
        is_current: v == current,
        tags: tags_of(v, latest, alpha),
    }
}

/// The list of the versions, the highest first.
pub open spec fn listing(
    versions: Seq<Seq<char>>,
    current: Seq<char>,
    latest: Option<Seq<char>>,
    alpha: Option<Seq<char>>,
) -> Seq<Entry> {
    version::sorted_desc(versions).map_values(|v: Seq<char>| entry_for(v, current, latest, alpha))
}

/// Whether an optional text is the given one.
fn is_text(a: &Option<String>, b: &str) -> (r: bool)
    ensures
        r == (text::maybe_owned(*a) == Some(b@)),
{
    match a {
        Some(s) => text::same_text(s.as_str(), b),
        None => false,
    }
}

/// Makes the entry for a version.
fn make_entry(
    v: &String,
    current: &str,
    latest: &Option<String>,
    alpha: &Option<String>,
) -> (r: VersionEntry)
    ensures
        r@ == entry_for(v@, current@, text::maybe_owned(*latest), text::maybe_owned(*alpha)),
{
    let mut tags: Vec<String> = Vec::new();
    if is_text(latest, v.as_str()) {
        tags.push("latest".to_owned());
    }
    if is_text(alpha, v.as_str()) {
        tags.push("alpha".to_owned());
    }
    assert(text::texts(tags@) =~= tags_of(
        v@,
        text::maybe_owned(*latest),
        text::maybe_owned(*alpha),
    ));
    VersionEntry {
        version: v.clone(),
        prerelease: version::is_prerelease_version(v.as_str()),
        is_current: text::same_text(v.as_str(), current),
        tags,
    }
}

/// Makes the list of the versions, the highest first, with their tags.
pub fn make_listing(
    versions: &Vec<String>,
    current: &str,
    latest: &Option<String>,
    alpha: &Option<String>,
) -> (r: Vec<VersionEntry>)
    ensures
        entries(r@) == listing(
            text::texts(versions@),
            current@,
            text::maybe_owned(*latest),
            text::maybe_owned(*alpha),
        ),
{
    let sorted = version::sort_versions(versions);
    let ghost all = listing(
        text::texts(versions@),
        current@,
        text::maybe_owned(*latest),
        text::maybe_owned(*alpha),
    );
    let mut r: Vec<VersionEntry> = Vec::new();
    assert(all.len() == text::texts(sorted@).len());
    assert(entries(r@) =~= all.take(0));
    for i in 0..sorted.len()
        invariant
            all.len() == sorted@.len(),
            text::texts(sorted@) == version::sorted_desc(text::texts(versions@)),
            all == listing(
                text::texts(versions@),
                current@,
                text::maybe_owned(*latest),
                text::maybe_owned(*alpha),
            ),
            entries(r@) == all.take(i as int),
    {
        let ghost before = r@;
        assert(text::texts(sorted@)[i as int] == sorted@[i as int]@);
        r.push(make_entry(&sorted[i], current, latest, alpha));
        proof {
            assert(r@.last()@ == all[i as int]);
            assert(entries(r@) =~= entries(before).push(all[i as int]));
            assert(entries(r@) =~= all.take(i as int + 1));
        }
    }
    assert(entries(r@) =~= all);
    r
}

/// The list holds each version as often as it was given, the highest first, and
/// marks the installed one and no other.
pub proof fn lemma_listing(
    versions: Seq<Seq<char>>,
    current: Seq<char>,
    latest: Option<Seq<char>>,
    alpha: Option<Seq<char>>,
)
    ensures
        ({
            let list = listing(versions, current, latest, alpha);
            &&& list.map_values(|e: Entry| e.version).to_multiset() == versions.to_multiset()
            &&& forall|i: int, j: int|
                0 <= i < j < list.len() ==> !version::version_higher(
                    (#[trigger] list[j]).version,
                    (#[trigger] list[i]).version,
                )
            &&& forall|i: int|
                0 <= i < list.len() ==> ((#[trigger] list[i]).is_current <==> list[i].version
                    == current)
        }),
{
    let list = listing(versions, current, latest, alpha);
    version::lemma_sorted_desc(versions, current);
    assert(list.map_values(|e: Entry| e.version) =~= version::sorted_desc(versions));
}

/// What each entry of a list says of its version: whether it is a pre-release,
/// whether it is the installed one, and with which of the two tags it goes, the tag
/// `latest` first.
pub proof fn lemma_entries_of_a_list(
    versions: &Vec<String>,
    current: &str,
    latest: &Option<String>,
    alpha: &Option<String>,
    r: Vec<VersionEntry>,
    i: int,
)
    requires
        call_ensures(make_listing, (versions, current, latest, alpha), r),
        0 <= i < r@.len(),
    ensures
        r@.len() == versions@.len(),
        text::texts(versions@).contains(r@[i].version@),
        r@[i].prerelease <==> version::is_prerelease(r@[i].version@),
        r@[i].is_current <==> r@[i].version@ == current@,
        ({
            let is_latest = *latest is Some && (*latest)->0@ == r@[i].version@;
            let is_alpha = *alpha is Some && (*alpha)->0@ == r@[i].version@;
            text::texts(r@[i].tags@) == if is_latest && is_alpha {
                seq!["latest"@, "alpha"@]
            } else if is_latest {
                seq!["latest"@]
            } else if is_alpha {
                seq!["alpha"@]
            } else {
                seq![]
            }
        }),
{
    broadcast use vstd::seq_lib::group_to_multiset_ensures;

    let all = text::texts(versions@);
    let sorted = version::sorted_desc(all);
    version::lemma_sorted_desc(all, current@);
    version::lemma_sorted_len(all);
    assert(entries(r@).len() == r@.len());
    assert(all.len() == versions@.len());
    assert(entries(r@)[i] == r@[i]@);
    assert(r@[i]@.version == sorted[i]);
    assert(sorted.contains(sorted[i]));
    assert(sorted.to_multiset().contains(sorted[i]));
    assert(all.to_multiset().contains(sorted[i]));
    let want = r@[i].tags@;
    assert(text::texts(want) =~= if *latest is Some && (*latest)->0@ == r@[i].version@
        && *alpha is Some && (*alpha)->0@ == r@[i].version@ {
        seq!["latest"@, "alpha"@]
    } else if *latest is Some && (*latest)->0@ == r@[i].version@ {
        seq!["latest"@]
    } else if *alpha is Some && (*alpha)->0@ == r@[i].version@ {
        seq!["alpha"@]
    } else {
        seq![]
    });
}

/// No version is left out of a list: each one that was given has an entry, and a
/// higher one stands before a lower one.
pub proof fn lemma_no_version_is_left_out(
    versions: &Vec<String>,
    current: &str,
    latest: &Option<String>,
    alpha: &Option<String>,
    r: Vec<VersionEntry>,
    k: int,
)
    requires
        call_ensures(make_listing, (versions, current, latest, alpha), r),
        0 <= k < versions@.len(),
    ensures
        exists|i: int| 0 <= i < r@.len() && (#[trigger] r@[i]).version@ == versions@[k]@,
        forall|i: int, j: int|
            0 <= i < r@.len() && 0 <= j < r@.len() && version::version_higher(
                (#[trigger] r@[i]).version@,
                (#[trigger] r@[j]).version@,
            ) ==> i < j,
{
    broadcast use vstd::seq_lib::group_to_multiset_ensures;

    let all = text::texts(versions@);
    let sorted = version::sorted_desc(all);
    version::lemma_sorted_desc(all, current@);
    version::lemma_sorted_len(all);
    assert(entries(r@).len() == r@.len());
    assert(all.len() == versions@.len());
    assert(all[k] == versions@[k]@);
    assert(all.contains(all[k]));
    assert(all.to_multiset().contains(all[k]));
    assert(sorted.contains(all[k]));
    let i = choose|i: int| 0 <= i < sorted.len() && sorted[i] == all[k];
    assert(entries(r@)[i] == r@[i]@);
    assert(r@[i].version@ == versions@[k]@);
    assert forall|i: int, j: int|
        0 <= i < r@.len() && 0 <= j < r@.len() && version::version_higher(
            (#[trigger] r@[i]).version@,
            (#[trigger] r@[j]).version@,
        ) implies i < j by {
        assert(entries(r@)[i] == r@[i]@ && entries(r@)[j] == r@[j]@);
        assert(sorted[i] == r@[i].version@ && sorted[j] == r@[j].version@);
        version::lemma_version_higher_asymmetric(sorted[i], sorted[j]);
    }
}

} // verus!
