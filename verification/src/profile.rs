//! The profile of dsh: the plugins it loads, and how a broken one is taken out
//! of its `package.json`.
use vstd::prelude::*;

use crate::json::{self, Json, JsonTree};
use crate::text;

verus! {

// The list of bundles.

/// The names under which the list of bundles stands in a `package.json`.
pub open spec fn bundles_path() -> Seq<Seq<char>> {
    seq!["dsh"@, "profile"@, "bundles"@]
}

/// The list of bundles in a `package.json`, where there is one.
pub open spec fn bundles_of(t: JsonTree) -> Option<Seq<JsonTree>> {
    match json::at_path(t, bundles_path()) {
        Some(JsonTree::Array(items)) => Some(items),
        _ => None,
    }
}

/// `t` with `items` as its list of bundles.
pub open spec fn with_bundles(t: JsonTree, items: Seq<JsonTree>) -> JsonTree {
    json::set_path(t, bundles_path(), JsonTree::Array(items))
}

/// Whether an entry of the list is the name of one of the plugins.
pub open spec fn is_named(item: JsonTree, plugins: Seq<Seq<char>>) -> bool {
    match item {
        JsonTree::Text(name) => plugins.contains(name),
        _ => false,
    }
}

/// The entries that name none of the plugins, in their order.
pub open spec fn kept_entries(items: Seq<JsonTree>, plugins: Seq<Seq<char>>) -> Seq<JsonTree>
    decreases items.len(),
{
    if items.len() == 0 {
        seq![]
    } else if is_named(items.last(), plugins) {
        kept_entries(items.drop_last(), plugins)
    } else {
        kept_entries(items.drop_last(), plugins).push(items.last())
    }
}

/// The names under which the list of bundles stands.
pub(crate) fn bundles_names() -> (r: Vec<String>)
    ensures
        text::texts(r@) == bundles_path(),
{
    let mut r: Vec<String> = Vec::new();
    r.push("dsh".to_owned());
    r.push("profile".to_owned());
    r.push("bundles".to_owned());
    assert(text::texts(r@) =~= bundles_path());
    r
}

/// Takes the list of bundles out of a `package.json`, leaving `null` in its
/// place; an `Err` holds the document unchanged, where it has no such list.
pub(crate) fn take_bundles(doc: Json) -> (r: Result<(Json, Vec<Json>), Json>)
    ensures
        match r {
            Ok((rest, items)) => bundles_of(doc@) == Some(json::trees(items@)) && rest@
                == json::set_path(doc@, bundles_path(), JsonTree::Null),
            Err(same) => bundles_of(doc@) is None && same@ == doc@,
        },
{
    let names = bundles_names();
    assert(bundles_path().skip(0) =~= bundles_path());
    if json::find_path(&doc, &names, 0).is_none() {
        return Err(doc);
    }
    let ghost whole = doc@;
    let (rest, old_value) = json::swap_at(doc, &names, 0, Json::Null);
    match old_value {
        Json::Array(items) => {
            proof {
                json::lemma_view_array(items);
            }
            Ok((rest, items))
        },
        other => {
            proof {
                json::lemma_set_path_here(whole, bundles_path(), JsonTree::Null, other@);
                lemma_put_back(whole, bundles_path());
            }
            let (doc, _null) = json::swap_at(rest, &names, 0, other);
            Err(doc)
        },
    }
}

/// Putting back what stood under a path gives the same document.
pub proof fn lemma_put_back(t: JsonTree, path: Seq<Seq<char>>)
    requires
        json::at_path(t, path) is Some,
    ensures
        json::set_path(t, path, json::at_path(t, path)->0) == t,
    decreases path.len(),
{
    if path.len() > 0 {
        let members = t->Object_0;
        let i = json::name_index(members, path[0]);
        json::lemma_name_index(members, path[0]);
        lemma_put_back(members[i].1, path.skip(1));
        assert(members.update(i, (members[i].0, members[i].1)) =~= members);
    }
}

/// Puts a list of bundles in the place from which one was taken.
pub(crate) fn put_bundles(rest: Json, items: Vec<Json>, Ghost(whole): Ghost<JsonTree>) -> (r: Json)
    requires
        bundles_of(whole) is Some,
        rest@ == json::set_path(whole, bundles_path(), JsonTree::Null),
    ensures
        r@ == with_bundles(whole, json::trees(items@)),
{
    let names = bundles_names();
    proof {
        assert(bundles_path().skip(0) =~= bundles_path());
        json::lemma_view_array(items);
        json::lemma_set_path_here(
            whole,
            bundles_path(),
            JsonTree::Null,
            JsonTree::Array(json::trees(items@)),
        );
    }
    json::swap_at(rest, &names, 0, Json::Array(items)).0
}

/// Whether `name` is one of the strings of `names`.
pub(crate) fn is_one_of(name: &str, names: &Vec<String>) -> (r: bool)
    ensures
        r == text::texts(names@).contains(name@),
{
    let wanted = name.to_owned();
    for i in 0..names.len()
        invariant
            wanted@ == name@,
            forall|j: int| 0 <= j < i ==> names@[j]@ != name@,
    {
        if names[i] == wanted {
            assert(text::texts(names@)[i as int] == name@);
            return true;
        }
    }
    false
}

// Taking broken plugins out.

/// What a repair of a `package.json` gives: its message where there is nothing
/// to repair; otherwise the document without the entries that name one of the
/// plugins, and how many those were.
pub open spec fn repaired(t: JsonTree, plugins: Seq<Seq<char>>) -> Result<
    (JsonTree, int),
    Seq<char>,
> {
    match bundles_of(t) {
        None => Err("profile package.json 缺少 dsh.profile.bundles"@),
        Some(items) => {
            let kept = kept_entries(items, plugins);
            if kept.len() == items.len() {
                Err("未在 bundles 中找到指定插件"@)
            } else {
                Ok((with_bundles(t, kept), items.len() - kept.len()))
            }
        },
    }
}

proof fn lemma_kept_entries(items: Seq<JsonTree>, plugins: Seq<Seq<char>>)
    ensures
        kept_entries(items, plugins).len() <= items.len(),
        forall|i: int|
            0 <= i < kept_entries(items, plugins).len() ==> items.contains(
                #[trigger] kept_entries(items, plugins)[i],
            ) && !is_named(kept_entries(items, plugins)[i], plugins),
        kept_entries(items, plugins).len() == items.len() ==> kept_entries(items, plugins) == items,
        kept_entries(kept_entries(items, plugins), plugins) == kept_entries(items, plugins),
    decreases items.len(),
{
    let kept = kept_entries(items, plugins);
    if items.len() > 0 {
        let short = items.drop_last();
        lemma_kept_entries(short, plugins);
        let inner = kept_entries(short, plugins);
        assert forall|i: int| 0 <= i < kept.len() implies items.contains(#[trigger] kept[i])
            && !is_named(kept[i], plugins) by {
            if i < inner.len() {
                assert(kept[i] == inner[i]);
                let k = choose|k: int| 0 <= k < short.len() && short[k] == inner[i];
                assert(items[k] == inner[i]);
            } else {
                assert(items[items.len() - 1] == kept[i]);
            }
        }
        if !is_named(items.last(), plugins) {
            assert(kept.drop_last() =~= inner);
        }
        if kept.len() == items.len() {
            assert(items =~= short.push(items.last()));
        }
    } else {
        assert(items =~= seq![]);
    }
}

/// Removes from the list of bundles of a `package.json` the entries that name
/// one of the plugins. Only that list changes. A document without the list,
/// and one in which no entry names one of the plugins, is an error.
pub fn remove_bundles(doc: Json, plugins: &Vec<String>) -> (r: Result<(Json, usize), String>)
    ensures
        match r {
            Ok((after, removed)) => repaired(doc@, text::texts(plugins@)) == Ok::<
                (JsonTree, int),
                Seq<char>,
            >((after@, removed as int)),
            Err(message) => repaired(doc@, text::texts(plugins@)) == Err::<
                (JsonTree, int),
                Seq<char>,
            >(message@),
        },
        r is Ok && json::well_formed(doc@, json::max_depth()) ==> json::well_formed(
            r->Ok_0.0@,
            json::max_depth(),
        ),
{
    let ghost whole = doc@;
    let ghost named = text::texts(plugins@);
    let (rest, items) = match take_bundles(doc) {
        Ok(taken) => taken,
        Err(_same) => {
            return Err("profile package.json 缺少 dsh.profile.bundles".to_owned());
        },
    };
    let ghost all = json::trees(items@);
    let total = items.len();
    let mut kept: Vec<Json> = Vec::new();
    let ghost source = items@;
    assert(json::trees(kept@) =~= kept_entries(all.take(0), named));
    for item in it: items
        invariant
            named == text::texts(plugins@),
            it.seq() == source,
            all == json::trees(source),
            json::trees(kept@) == kept_entries(all.take(it.index() as int), named),
    {
        let ghost i = it.index() as int;
        let ghost before = json::trees(kept@);
        proof {
            assert(all.take(i + 1).drop_last() =~= all.take(i));
            assert(all.take(i + 1).last() == item@);
        }
        let drop_it = match item.as_text() {
            Some(name) => is_one_of(name, plugins),
            None => false,
        };
        assert(drop_it == is_named(item@, named));
        if !drop_it {
            kept.push(item);
            assert(json::trees(kept@) =~= before.push(item@));
        }
    }
    proof {
        assert(all.take(total as int) =~= all);
        lemma_kept_entries(all, named);
        assert(kept@.len() == json::trees(kept@).len());
        if json::well_formed(whole, json::max_depth()) {
            lemma_bundles_well_formed(whole, json::trees(kept@));
        }
    }
    if kept.len() == total {
        return Err("未在 bundles 中找到指定插件".to_owned());
    }
    let removed = total - kept.len();
    Ok((put_bundles(rest, kept, Ghost(whole)), removed))
}

/// A list made of entries of the old list keeps the document well formed.
pub proof fn lemma_bundles_well_formed(t: JsonTree, items: Seq<JsonTree>)
    requires
        json::well_formed(t, json::max_depth()),
        bundles_of(t) is Some,
        forall|i: int|
            0 <= i < items.len() ==> bundles_of(t)->0.contains(#[trigger] items[i])
                || items[i] is Text,
    ensures
        json::well_formed(with_bundles(t, items), json::max_depth()),
{
    let old_items = bundles_of(t)->0;
    json::lemma_set_path_well_formed(t, bundles_path(), JsonTree::Null, json::max_depth());
    let depth = (json::max_depth() - 3) as nat;
    assert(json::well_formed(JsonTree::Array(old_items), depth));
    assert forall|i: int| 0 <= i < items.len() implies json::well_formed(
        #[trigger] items[i],
        (depth - 1) as nat,
    ) by {
        if old_items.contains(items[i]) {
            let k = choose|k: int| 0 <= k < old_items.len() && old_items[k] == items[i];
            assert(json::well_formed(old_items[k], (depth - 1) as nat));
        }
    }
    json::lemma_set_path_well_formed(
        t,
        bundles_path(),
        JsonTree::Array(items),
        json::max_depth(),
    );
}

/// What a repair of the text of a `package.json` gives: the new text and the
/// number of entries that were removed, or a message.
pub open spec fn repaired_text(text: Seq<char>, plugins: Seq<Seq<char>>) -> Result<
    (Seq<char>, int),
    Seq<char>,
> {
    match json::json_text(text) {
        Err(e) => Err("解析 package.json 失败: "@ + e),
        Ok(t) => match repaired(t, plugins) {
            Err(message) => Err(message),
            Ok((after, removed)) => Ok((json::json_pretty(after).push('\n'), removed)),
        },
    }
}

/// Removes from the text of a `package.json` the bundles that name one of the
/// plugins; gives the new text and the number of entries that were removed.
///
/// The new text is the repaired document, written indented, and a line feed.
/// Repairing it once more is an error, whatever the document holds: read again,
/// it names none of the plugins any more. It fails to be read only where a number
/// other than an integer of 64 bits occurs in the document.
pub fn remove_bundle_entries_from(text: &str, plugins: &Vec<String>) -> (r: Result<
    (String, usize),
    String,
>)
    ensures
        match r {
            Ok((out, removed)) => repaired_text(text@, text::texts(plugins@)) == Ok::<
                (Seq<char>, int),
                Seq<char>,
            >((out@, removed as int)),
            Err(message) => repaired_text(text@, text::texts(plugins@)) == Err::<
                (Seq<char>, int),
                Seq<char>,
            >(message@),
        },
        r is Ok ==> {
            &&& json::reads_back(
                r->Ok_0.0@,
                repaired(json::json_text(text@)->Ok_0, text::texts(plugins@))->Ok_0.0,
            )
            &&& repaired_text(r->Ok_0.0@, text::texts(plugins@)) is Err
            &&& json::json_text(r->Ok_0.0@) is Ok ==> repaired_text(
                r->Ok_0.0@,
                text::texts(plugins@),
            )->Err_0 == "未在 bundles 中找到指定插件"@
            &&& json::json_text(r->Ok_0.0@) is Err ==> !json::no_floats(
                json::json_text(text@)->Ok_0,
            )
        },
{
    let doc = match json::parse_json(text) {
        Ok(doc) => doc,
        Err(e) => {
            let mut message = "解析 package.json 失败: ".to_owned();
            message.append(e.as_str());
            return Err(message);
        },
    };
    let ghost whole = doc@;
    match remove_bundles(doc, plugins) {
        Ok((after, removed)) => {
            proof {
                lemma_repair_is_final(whole, text::texts(plugins@));
            }
            let ghost fixed = after@;
            let mut out = json::render_json(after);
            out.push('\n');
            proof {
                if json::json_text(out@) is Ok {
                    lemma_alike_repairs_no_further(
                        json::json_text(out@)->Ok_0,
                        fixed,
                        text::texts(plugins@),
                    );
                }
            }
            Ok((out, removed))
        },
        Err(message) => Err(message),
    }
}

/// A repaired document names none of the plugins in its list of bundles, so
/// that repairing it once more is an error; it keeps the other entries of the
/// list in their order; and a document without fractions stays so.
pub proof fn lemma_repair_is_final(t: JsonTree, plugins: Seq<Seq<char>>)
    requires
        repaired(t, plugins) is Ok,
    ensures
        bundles_of(repaired(t, plugins)->Ok_0.0) == Some(
            kept_entries(bundles_of(t)->0, plugins),
        ),
        forall|i: int|
            0 <= i < kept_entries(bundles_of(t)->0, plugins).len() ==> !is_named(
                #[trigger] kept_entries(bundles_of(t)->0, plugins)[i],
                plugins,
            ),
        repaired(repaired(t, plugins)->Ok_0.0, plugins) == Err::<(JsonTree, int), Seq<char>>(
            "未在 bundles 中找到指定插件"@,
        ),
        json::no_floats(t) ==> json::no_floats(repaired(t, plugins)->Ok_0.0),
{
    let items = bundles_of(t)->0;
    let kept = kept_entries(items, plugins);
    lemma_kept_entries(items, plugins);
    json::lemma_set_path_here(t, bundles_path(), JsonTree::Array(kept), JsonTree::Null);
    if json::no_floats(t) {
        json::lemma_set_path_no_floats(t, bundles_path(), JsonTree::Null);
        assert(json::no_floats(JsonTree::Array(items)));
        assert forall|i: int| 0 <= i < kept.len() implies json::no_floats(
            #[trigger] kept[i],
        ) by {
            assert(items.contains(kept[i]));
            let k = choose|k: int| 0 <= k < items.len() && items[k] == kept[i];
            assert(json::no_floats(items[k]));
        }
        json::lemma_set_path_no_floats(t, bundles_path(), JsonTree::Array(kept));
    }
}

/// A document like one whose bundles name none of the plugins cannot be repaired
/// either.
pub proof fn lemma_alike_repairs_no_further(
    a: JsonTree,
    b: JsonTree,
    plugins: Seq<Seq<char>>,
)
    requires
        json::alike(a, b),
        bundles_of(b) is Some,
        forall|i: int|
            0 <= i < bundles_of(b)->0.len() ==> !is_named(#[trigger] bundles_of(b)->0[i], plugins),
    ensures
        repaired(a, plugins) == Err::<(JsonTree, int), Seq<char>>("未在 bundles 中找到指定插件"@),
{
    json::lemma_alike_at_path(a, b, bundles_path());
    let x = bundles_of(a)->0;
    let y = bundles_of(b)->0;
    assert forall|i: int| 0 <= i < x.len() implies !is_named(#[trigger] x[i], plugins) by {
        assert(json::alike(x[i], y[i]));
        assert(!is_named(y[i], plugins));
    }
    lemma_unnamed_entries_stay(x, plugins);
}

/// A repair changes nothing outside the list of bundles: what stands under any
/// path that neither leads to the list nor passes through it, such as the
/// dependencies, stays as it is.
pub proof fn lemma_repair_touches_bundles_only(
    t: JsonTree,
    plugins: Seq<Seq<char>>,
    path: Seq<Seq<char>>,
)
    requires
        repaired(t, plugins) is Ok,
        !bundles_path().is_prefix_of(path),
        !path.is_prefix_of(bundles_path()),
    ensures
        json::at_path(repaired(t, plugins)->Ok_0.0, path) == json::at_path(t, path),
{
    let kept = kept_entries(bundles_of(t)->0, plugins);
    json::lemma_set_path_elsewhere(t, bundles_path(), JsonTree::Array(kept), path);
}

/// Each repair that succeeds makes the list of bundles shorter, by the number
/// of entries that it reports: repairs cannot go on for ever.
pub proof fn lemma_repair_shrinks(t: JsonTree, plugins: Seq<Seq<char>>)
    requires
        repaired(t, plugins) is Ok,
    ensures
        repaired(t, plugins)->Ok_0.1 > 0,
        bundles_of(repaired(t, plugins)->Ok_0.0)->0.len() + repaired(t, plugins)->Ok_0.1
            == bundles_of(t)->0.len(),
{
    lemma_repair_is_final(t, plugins);
    lemma_kept_entries(bundles_of(t)->0, plugins);
}

/// Entries of which none names one of the plugins are all kept.
pub proof fn lemma_unnamed_entries_stay(items: Seq<JsonTree>, plugins: Seq<Seq<char>>)
    requires
        forall|i: int| 0 <= i < items.len() ==> !is_named(#[trigger] items[i], plugins),
    ensures
        kept_entries(items, plugins) == items,
    decreases items.len(),
{
    if items.len() > 0 {
        assert forall|i: int| 0 <= i < items.drop_last().len() implies !is_named(
            #[trigger] items.drop_last()[i],
            plugins,
        ) by {
            assert(items[i] == items.drop_last()[i]);
        }
        lemma_unnamed_entries_stay(items.drop_last(), plugins);
        assert(!is_named(items[items.len() - 1], plugins));
        assert(items =~= items.drop_last().push(items.last()));
    } else {
        assert(items =~= seq![]);
    }
}

// The file of the profile.

/// The `package.json` of the profile, as it was found.
pub enum ProfileFile {
    /// The directory of the user is not known.
    NoHome,
    /// There is no such file.
    Missing,
    /// It cannot be read, with the message.
    Unreadable(String),
    /// Its text.
    Read(String),
}

/// What a repair of the file gives: its new text and the number of entries
/// that were removed, or a message.
pub open spec fn repaired_file(file: ProfileFile, plugins: Seq<Seq<char>>) -> Result<
    (Seq<char>, int),
    Seq<char>,
> {
    match file {
        ProfileFile::NoHome => Err("无法定位用户目录"@),
        ProfileFile::Missing => Err("profile package.json 不存在"@),
        ProfileFile::Unreadable(e) => Err("读取 package.json 失败: "@ + e@),
        ProfileFile::Read(text) => repaired_text(text@, plugins),
    }
}

/// Removes from the profile the bundles that name one of the plugins; gives the
/// text to write and the number of entries that were removed.
pub fn remove_bundle_entries(file: ProfileFile, plugins: &Vec<String>) -> (r: Result<
    (String, usize),
    String,
>)
    ensures
        match r {
            Ok((out, removed)) => repaired_file(file, text::texts(plugins@)) == Ok::<
                (Seq<char>, int),
                Seq<char>,
            >((out@, removed as int)),
            Err(message) => repaired_file(file, text::texts(plugins@)) == Err::<
                (Seq<char>, int),
                Seq<char>,
            >(message@),
        },
{
    match file {
        ProfileFile::NoHome => Err("无法定位用户目录".to_owned()),
        ProfileFile::Missing => Err("profile package.json 不存在".to_owned()),
        ProfileFile::Unreadable(e) => {
            let mut message = "读取 package.json 失败: ".to_owned();
            message.append(e.as_str());
            Err(message)
        },
        ProfileFile::Read(text) => remove_bundle_entries_from(text.as_str(), plugins),
    }
}

/// What a repair comes to, given what came of writing the file: the number of
/// entries that were removed.
pub fn bundle_entries_written(removed: usize, written: Result<(), String>) -> (r: Result<
    usize,
    String,
>)
    ensures
        match written {
            Ok(_) => r == Ok::<usize, String>(removed),
            Err(e) => r is Err && r->Err_0@ == "写入 package.json 失败: "@ + e@,
        },
{
    match written {
        Ok(_) => Ok(removed),
        Err(e) => {
            let mut message = "写入 package.json 失败: ".to_owned();
            message.append(e.as_str());
            Err(message)
        },
    }
}

// Finding broken plugins in a log.

/// The words behind which dsh names a bundle that it cannot resolve.
pub open spec fn complaint() -> Seq<char> {
    "cannot resolve profile bundle "@
}

/// The words are not empty.
pub proof fn lemma_complaint_is_filled()
    ensures
        complaint().len() > 0,
{
    reveal_strlit("cannot resolve profile bundle ");
}

/// Whether a quote opens `s`, behind white space where there is some.
pub open spec fn opens_quote(s: Seq<char>) -> bool {
    text::trimmed_start(s).len() > 0 && text::trimmed_start(s)[0] == '"'
}

/// The position of the first quote in `s` that no backslash escapes, or the
/// length of `s`.
pub open spec fn closing_quote(s: Seq<char>) -> int
    decreases s.len(),
{
    if s.len() == 0 || s[0] == '"' {
        0
    } else if s[0] == '\\' && s.len() > 1 {
        2 + closing_quote(s.skip(2))
    } else {
        1 + closing_quote(s.skip(1))
    }
}

/// The closing quote lies in the text, or at its end.
pub proof fn lemma_closing_quote(s: Seq<char>)
    ensures
        0 <= closing_quote(s) <= s.len(),
    decreases s.len(),
{
    if s.len() > 0 && s[0] != '"' {
        if s[0] == '\\' && s.len() > 1 {
            lemma_closing_quote(s.skip(2));
        } else {
            lemma_closing_quote(s.skip(1));
        }
    }
}

/// The position of the first quote at or after `from` that no backslash escapes,
/// or the length of `s`.
fn find_closing_quote(s: &Vec<char>, from: usize) -> (r: usize)
    requires
        from <= s@.len(),
    ensures
        from <= r <= s@.len(),
        r - from == closing_quote(s@.skip(from as int)),
{
    let mut i: usize = from;
    while i < s.len() && s[i] != '"'
        invariant
            from <= i <= s@.len(),
            s@.len() == s.len(),
            i - from + closing_quote(s@.skip(i as int)) == closing_quote(s@.skip(from as int)),
        decreases s@.len() - i,
    {
        let ghost rest = s@.skip(i as int);
        if s[i] == '\\' && i + 1 < s.len() {
            assert(rest.skip(2) =~= s@.skip(i as int + 2));
            i = i + 2;
        } else {
            assert(rest.skip(1) =~= s@.skip(i as int + 1));
            i = i + 1;
        }
    }
    i
}

/// The names in quotes behind the complaints in `log`, in their order. A
/// complaint without a quote behind it names nothing.
pub open spec fn complained_names(log: Seq<char>) -> Seq<Seq<char>>
    decreases log.len(),
{
    match text::find(log, complaint()) {
        None => seq![],
        Some(at) => {
            let quoted = text::trimmed_start(log.skip(at + complaint().len()));
            if opens_quote(log.skip(at + complaint().len())) {
                let name = quoted.skip(1).take(closing_quote(quoted.skip(1)));
                let rest = quoted.skip(1).skip(closing_quote(quoted.skip(1)));
                proof {
                    text::lemma_find_is_first(log, complaint());
                    text::lemma_trimmed_start_len(log.skip(at + complaint().len()));
                    lemma_closing_quote(quoted.skip(1));
                }
                seq![name] + complained_names(rest)
            } else {
                proof {
                    text::lemma_find_is_first(log, complaint());
                    lemma_complaint_is_filled();
                }
                complained_names(log.skip(at + complaint().len()))
            }
        },
    }
}

/// The names of `names` that are not empty, each once, in the order in which
/// they first occur.
pub open spec fn distinct_names(names: Seq<Seq<char>>) -> Seq<Seq<char>>
    decreases names.len(),
{
    if names.len() == 0 {
        seq![]
    } else {
        let before = distinct_names(names.drop_last());
        if names.last().len() == 0 || before.contains(names.last()) {
            before
        } else {
            before.push(names.last())
        }
    }
}

/// Two complaints do not overlap: only the first character of the words is a
/// `c`.
proof fn lemma_complaints_do_not_overlap(log: Seq<char>, i: int, j: int)
    requires
        text::stands_at(log, complaint(), i),
        text::stands_at(log, complaint(), j),
        i < j,
    ensures
        i + complaint().len() <= j,
{
    reveal_strlit("cannot resolve profile bundle ");
    if j < i + complaint().len() {
        assert(log.subrange(j, j + complaint().len())[0] == log[j]);
        assert(log.subrange(i, i + complaint().len())[j - i] == log[j]);
        assert(complaint()[j - i] == 'c');
    }
}

/// A complaint that quotes a name, and what stands behind it.
pub open spec fn quoted_complaint(name: Seq<char>, behind: Seq<char>) -> Seq<char> {
    complaint() + (seq!['"'] + (name + seq!['"'] + behind))
}

/// A name without quotes and backslashes ends at the next quote.
proof fn lemma_plain_name_is_closed(name: Seq<char>, behind: Seq<char>)
    requires
        !name.contains('"') && !name.contains('\\'),
    ensures
        closing_quote(name + seq!['"'] + behind) == name.len(),
    decreases name.len(),
{
    let s = name + seq!['"'] + behind;
    if name.len() > 0 {
        assert(s[0] == name[0] && name.contains(name[0]));
        let shorter = name.skip(1);
        assert forall|c: char| shorter.contains(c) implies name.contains(c) by {
            let k = choose|k: int| 0 <= k < shorter.len() && shorter[k] == c;
            assert(name[k + 1] == c);
        }
        lemma_plain_name_is_closed(shorter, behind);
        assert(s.skip(1) =~= shorter + seq!['"'] + behind);
    } else {
        assert(s[0] == '"');
    }
}

/// A complaint that quotes a name gives that name first.
proof fn lemma_quoted_complaint(name: Seq<char>, behind: Seq<char>)
    requires
        !name.contains('"') && !name.contains('\\'),
    ensures
        complained_names(quoted_complaint(name, behind)) == seq![name] + complained_names(
            seq!['"'] + behind,
        ),
{
    let line = quoted_complaint(name, behind);
    let n = complaint().len() as int;
    assert(line.subrange(0, n) =~= complaint());
    assert(text::find(line, complaint()) == Some(0int));
    let tail = seq!['"'] + (name + seq!['"'] + behind);
    assert(line.skip(n) =~= tail);
    assert(!text::is_space('"'));
    assert(text::trimmed_start(tail) == tail);
    let quoted = name + seq!['"'] + behind;
    assert(tail.skip(1) =~= quoted);
    lemma_plain_name_is_closed(name, behind);
    assert(quoted.take(name.len() as int) =~= name);
    assert(quoted.skip(name.len() as int) =~= seq!['"'] + behind);
}

/// A complaint that quotes no name is passed over.
proof fn lemma_unquoted_complaint(log: Seq<char>)
    requires
        text::find(log, complaint()) is Some,
        !opens_quote(log.skip(text::find(log, complaint())->0 + complaint().len())),
    ensures
        complained_names(log) == complained_names(
            log.skip(text::find(log, complaint())->0 + complaint().len()),
        ),
{
}

/// Every complaint that quotes a name is found, whatever stands before it, as
/// long as no other complaint before it quotes a name: its name is the first,
/// and the names behind it follow.
pub proof fn lemma_every_quoted_complaint_is_found(
    before: Seq<char>,
    name: Seq<char>,
    behind: Seq<char>,
)
    requires
        !name.contains('"') && !name.contains('\\'),
        forall|j: int|
            0 <= j < before.len() && #[trigger] text::stands_at(
                before + quoted_complaint(name, behind),
                complaint(),
                j,
            ) ==> !opens_quote(
                (before + quoted_complaint(name, behind)).skip(j + complaint().len()),
            ),
    ensures
        complained_names(before + quoted_complaint(name, behind)) == seq![name]
            + complained_names(seq!['"'] + behind),
    decreases before.len(),
{
    let line = quoted_complaint(name, behind);
    let log = before + line;
    let n = complaint().len() as int;
    let p = before.len() as int;
    assert(log.subrange(p, p + n) =~= complaint());
    assert(text::stands_at(log, complaint(), p));
    text::lemma_find_is_first(log, complaint());
    lemma_complaint_is_filled();
    let at = text::find(log, complaint())->0;
    if at < p {
        lemma_complaints_do_not_overlap(log, at, p);
        lemma_unquoted_complaint(log);
        let later = before.skip(at + n);
        let rest = later + line;
        assert(log.skip(at + n) =~= rest);
        assert forall|j: int|
            0 <= j < later.len() && #[trigger] text::stands_at(
                rest,
                complaint(),
                j,
            ) implies !opens_quote(rest.skip(j + n)) by {
            assert(rest.subrange(j, j + n) =~= log.subrange(j + at + n, j + at + n + n));
            assert(text::stands_at(log, complaint(), j + at + n));
            assert(rest.skip(j + n) =~= log.skip(j + at + n + n));
        }
        lemma_every_quoted_complaint_is_found(later, name, behind);
    } else {
        assert(line.subrange(0, n) =~= complaint());
        assert(text::find(line, complaint()) == Some(0int));
        lemma_complaint_comes_first(before, line);
        lemma_quoted_complaint(name, behind);
    }
}

/// What stands before the first complaint does not count.
proof fn lemma_complaint_comes_first(before: Seq<char>, line: Seq<char>)
    requires
        text::find(before + line, complaint()) == Some(before.len() as int),
        text::find(line, complaint()) == Some(0int),
    ensures
        complained_names(before + line) == complained_names(line),
{
    let n = complaint().len() as int;
    text::lemma_find_is_first(line, complaint());
    assert((before + line).skip(before.len() + n) =~= line.skip(n));
}

/// The plugins that a log of dsh complains of: the names in quotes behind
/// `cannot resolve profile bundle `, each once. A name runs up to the next quote
/// that no backslash escapes.
pub fn extract_bad_bundle_plugins(tail: &str) -> (r: Vec<String>)
    ensures
        text::texts(r@) == distinct_names(complained_names(tail@)),
{
    let log = text::to_chars(tail);
    let needle = text::to_chars("cannot resolve profile bundle ");
    let mut out: Vec<String> = Vec::new();
    let mut from: usize = 0;
    let ghost all = complained_names(log@);
    let ghost mut seen: Seq<Seq<char>> = seq![];
    proof {
        assert(log@.skip(0) =~= log@);
        assert(seen + complained_names(log@) =~= all);
        assert(text::texts(out@) =~= distinct_names(seen));
    }
    loop
        invariant
            from <= log@.len(),
            log@.len() == log.len(),
            needle@ == complaint(),
            all == complained_names(log@),
            seen + complained_names(log@.skip(from as int)) == all,
            text::texts(out@) == distinct_names(seen),
        ensures
            text::texts(out@) == distinct_names(all),
        decreases log@.len() - from,
    {
        let ghost rest = log@.skip(from as int);
        let at = match text::find_from(&log, &needle, from) {
            Some(at) => at,
            None => {
                assert(seen + complained_names(rest) =~= seen);
                break;
            },
        };
        let after = at + needle.len();
        let lo = text::skip_space(&log, after);
        proof {
            assert(rest.skip(at - from + needle@.len()) =~= log@.skip(after as int));
        }
        let ghost quoted = log@.skip(lo as int);
        if lo == log.len() || log[lo] != '"' {
            proof {
                assert(lo < log@.len() ==> quoted[0] == log@[lo as int]);
                assert(complained_names(rest) == complained_names(log@.skip(after as int)));
                lemma_complaint_is_filled();
            }
            from = after;
            continue;
        }
        let end = find_closing_quote(&log, lo + 1);
        let name = text::slice_chars(&log, lo + 1, end);
        let ghost old_names = text::texts(out@);
        proof {
            assert(quoted[0] == log@[lo as int]);
            assert(quoted.skip(1) =~= log@.skip(lo as int + 1));
            assert(name@ =~= quoted.skip(1).take(end - lo - 1));
            assert(quoted.skip(1).skip(end - lo - 1) =~= log@.skip(end as int));
            assert((seen.push(name@)) + complained_names(log@.skip(end as int)) =~= seen
                + complained_names(rest));
            assert(seen.push(name@).drop_last() =~= seen);
            seen = seen.push(name@);
        }
        let text_name = text::from_chars(&name);
        if name.len() > 0 && !is_one_of(text_name.as_str(), &out) {
            out.push(text_name);
            assert(text::texts(out@) =~= old_names.push(name@));
        }
        from = end;
    }
    out
}

proof fn lemma_distinct_names(names: Seq<Seq<char>>)
    ensures
        distinct_names(names).no_duplicates(),
        forall|n: Seq<char>| #[trigger]
            distinct_names(names).contains(n) <==> n.len() > 0 && names.contains(n),
    decreases names.len(),
{
    if names.len() > 0 {
        let short = names.drop_last();
        let last = names.last();
        let before = distinct_names(short);
        let r = distinct_names(names);
        lemma_distinct_names(short);
        assert(names =~= short.push(last));
        assert forall|n: Seq<char>| #[trigger] r.contains(n) <==> n.len() > 0 && names.contains(
            n,
        ) by {
            if r.contains(n) {
                let k = choose|k: int| 0 <= k < r.len() && r[k] == n;
                if k < before.len() {
                    assert(before[k] == n);
                    assert(before.contains(n));
                    let m = choose|m: int| 0 <= m < short.len() && short[m] == n;
                    assert(names[m] == n);
                } else {
                    assert(names[names.len() - 1] == n);
                }
            }
            if n.len() > 0 && names.contains(n) {
                let m = choose|m: int| 0 <= m < names.len() && names[m] == n;
                if m < short.len() {
                    assert(short[m] == n);
                    assert(before.contains(n));
                    let k = choose|k: int| 0 <= k < before.len() && before[k] == n;
                    assert(r[k] == n);
                } else if !before.contains(last) {
                    assert(r[r.len() - 1] == n);
                }
            }
        }
    }
}

/// The plugins found in a log are those whose names stand, not empty, behind a
/// complaint; none is listed twice.
pub proof fn lemma_bad_plugins_listed_once(log: Seq<char>)
    ensures
        distinct_names(complained_names(log)).no_duplicates(),
        forall|n: Seq<char>| #[trigger]
            distinct_names(complained_names(log)).contains(n) <==> n.len() > 0
                && complained_names(log).contains(n),
{
    lemma_distinct_names(complained_names(log));
}

/// A log without a complaint of an unresolved bundle names no plugin.
pub proof fn lemma_no_complaint_no_plugin(log: Seq<char>)
    requires
        text::find(log, complaint()) is None,
    ensures
        distinct_names(complained_names(log)) == Seq::<Seq<char>>::empty(),
{
}

// What a repair is.

/// The entries that a repair keeps are all those that are not the name of one of
/// the plugins, in their order, and no others.
pub proof fn lemma_kept_are_the_unnamed(items: Seq<JsonTree>, plugins: Seq<Seq<char>>)
    ensures
        kept_entries(items, plugins) == items.filter(
            |item: JsonTree| !(item is Text && plugins.contains(item->Text_0)),
        ),
    decreases items.len(),
{
    reveal(Seq::filter);
    if items.len() > 0 {
        lemma_kept_are_the_unnamed(items.drop_last(), plugins);
    } else {
        assert(items =~= seq![]);
    }
}

/// A repair succeeds exactly where the document has a list of bundles with an entry
/// that names one of the plugins. It takes every such entry out, leaves every other
/// one in its place, and tells how many it took out.
pub proof fn lemma_what_a_repair_does(t: JsonTree, plugins: Seq<Seq<char>>)
    ensures
        repaired(t, plugins) is Ok <==> (json::at_path(
            t,
            seq!["dsh"@, "profile"@, "bundles"@],
        ) matches Some(JsonTree::Array(items)) && exists|i: int|
            0 <= i < items.len() && (#[trigger] items[i]) is Text && plugins.contains(
                items[i]->Text_0,
            )),
        repaired(t, plugins) matches Ok((after, removed)) ==> {
            let items = json::at_path(t, seq!["dsh"@, "profile"@, "bundles"@])->0->Array_0;
            let kept = items.filter(
                |item: JsonTree| !(item is Text && plugins.contains(item->Text_0)),
            );
            &&& json::at_path(after, seq!["dsh"@, "profile"@, "bundles"@]) == Some(
                JsonTree::Array(kept),
            )
            &&& removed == items.len() - kept.len()
            &&& removed > 0
        },
{
    if bundles_of(t) is Some {
        let items = bundles_of(t)->0;
        let kept = kept_entries(items, plugins);
        lemma_kept_are_the_unnamed(items, plugins);
        lemma_kept_entries(items, plugins);
        if exists|i: int|
            0 <= i < items.len() && (#[trigger] items[i]) is Text && plugins.contains(
                items[i]->Text_0,
            ) {
            let i = choose|i: int|
                0 <= i < items.len() && (#[trigger] items[i]) is Text && plugins.contains(
                    items[i]->Text_0,
                );
            if kept.len() == items.len() {
                assert(kept[i] == items[i]);
                assert(!is_named(kept[i], plugins));
            }
        } else {
            assert forall|i: int| 0 <= i < items.len() implies !is_named(
                #[trigger] items[i],
                plugins,
            ) by {}
            lemma_unnamed_entries_stay(items, plugins);
        }
        if repaired(t, plugins) is Ok {
            lemma_repair_is_final(t, plugins);
        }
    }
}

/// What a repair of the file comes to: it fails where the file is not there, is
/// not read, or is no JSON, and otherwise does what the repair of its document does.
pub proof fn lemma_repair_of_the_file(
    file: ProfileFile,
    plugins: &Vec<String>,
    r: Result<(String, usize), String>,
    removed: usize,
    written: Result<(), String>,
    end: Result<usize, String>,
)
    requires
        call_ensures(remove_bundle_entries, (file, plugins), r),
        call_ensures(bundle_entries_written, (removed, written), end),
    ensures
        r is Ok <==> (file matches ProfileFile::Read(s) && (json::json_text(s@) matches Ok(t)
            && repaired(t, text::texts(plugins@)) is Ok)),
        r matches Ok((out, n)) ==> {
            let t = json::json_text(file->Read_0@)->Ok_0;
            let (after, gone) = repaired(t, text::texts(plugins@))->Ok_0;
            out@ == json::json_pretty(after) + seq!['\n'] && n == gone
        },
        file is NoHome ==> r->Err_0@ == "无法定位用户目录"@,
        file is Missing ==> r->Err_0@ == "profile package.json 不存在"@,
        file matches ProfileFile::Unreadable(e) ==> r->Err_0@ == "读取 package.json 失败: "@ + e@,
        written is Ok ==> end == Ok::<usize, String>(removed),
        written matches Err(e) ==> end is Err && end->Err_0@ == "写入 package.json 失败: "@ + e@,
{
    if let Ok((out, n)) = r {
        let t = json::json_text(file->Read_0@)->Ok_0;
        let (after, gone) = repaired(t, text::texts(plugins@))->Ok_0;
        assert(json::json_pretty(after).push('\n') =~= json::json_pretty(after) + seq!['\n']);
    }
}

// What a log complains of.

/// A quoted name runs up to the next quote; a backslash takes the character behind
/// it along, so that a quote behind one does not end the name.
pub proof fn lemma_where_a_name_ends(c: char, s: Seq<char>)
    ensures
        closing_quote(seq!['"'] + s) == 0,
        closing_quote(seq!['\\', c] + s) == 2 + closing_quote(s),
        c != '"' && c != '\\' ==> closing_quote(seq![c] + s) == 1 + closing_quote(s),
        closing_quote(Seq::<char>::empty()) == 0,
{
    assert((seq!['\\', c] + s).skip(2) =~= s);
    assert((seq![c] + s).skip(1) =~= s);
}

/// A complaint names what stands in the quotes behind it, whatever white space
/// stands before the quotes, and what follows the quotes is searched for further
/// complaints.
pub proof fn lemma_complaint_names_the_quoted(
    space: Seq<char>,
    name: Seq<char>,
    behind: Seq<char>,
)
    requires
        forall|i: int| 0 <= i < space.len() ==> text::is_space(#[trigger] space[i]),
        !name.contains('"') && !name.contains('\\'),
    ensures
        complained_names(
            "cannot resolve profile bundle "@ + (space + (seq!['"'] + (name + seq!['"']
                + behind))),
        ) == seq![name] + complained_names(behind),
{
    let tail = seq!['"'] + (name + seq!['"'] + behind);
    let line = complaint() + (space + tail);
    let n = complaint().len() as int;
    assert(line.subrange(0, n) =~= complaint());
    assert(text::find(line, complaint()) == Some(0int));
    assert(line.skip(n) =~= space + tail);
    assert(!text::is_space('"'));
    text::lemma_trim_start(space, tail);
    let quoted = name + seq!['"'] + behind;
    assert(tail.skip(1) =~= quoted);
    lemma_plain_name_is_closed(name, behind);
    assert(quoted.take(name.len() as int) =~= name);
    assert(quoted.skip(name.len() as int) =~= seq!['"'] + behind);
    lemma_quote_is_passed_over(behind);
}

/// A quote is no part of a complaint.
proof fn lemma_quote_is_passed_over(behind: Seq<char>)
    ensures
        complained_names(seq!['"'] + behind) == complained_names(behind),
{
    let s = seq!['"'] + behind;
    reveal_strlit("cannot resolve profile bundle ");
    assert(complaint()[0] == 'c');
    assert(s.skip(1) =~= behind);
    if text::has_prefix(s, complaint()) {
        assert(s.subrange(0, complaint().len() as int)[0] == s[0]);
    }
    text::lemma_find_is_first(behind, complaint());
    if let Some(at) = text::find(behind, complaint()) {
        assert(s.skip(at + 1 + complaint().len()) =~= behind.skip(at + complaint().len()));
    }
}

/// A complaint behind which no quote opens names nothing, and what follows it is
/// searched for further complaints; what stands before the first complaint does not
/// count.
pub proof fn lemma_unquoted_complaint_names_nothing(space: Seq<char>, c: char, behind: Seq<char>)
    requires
        forall|i: int| 0 <= i < space.len() ==> text::is_space(#[trigger] space[i]),
        !text::is_space(c) && c != '"',
    ensures
        complained_names("cannot resolve profile bundle "@ + (space + (seq![c] + behind)))
            == complained_names(space + (seq![c] + behind)),
        complained_names(Seq::<char>::empty()) == Seq::<Seq<char>>::empty(),
{
    let tail = space + (seq![c] + behind);
    let line = complaint() + tail;
    let n = complaint().len() as int;
    assert(line.subrange(0, n) =~= complaint());
    assert(text::find(line, complaint()) == Some(0int));
    assert(line.skip(n) =~= tail);
    text::lemma_trim_start(space, seq![c] + behind);
    reveal_strlit("cannot resolve profile bundle ");
}

/// Each name is listed where it first occurs: one more name is put behind the
/// others where it is new and not empty, and changes nothing otherwise.
pub proof fn lemma_names_are_listed_in_order(names: Seq<Seq<char>>, n: Seq<char>)
    ensures
        n.len() > 0 && !names.contains(n) ==> distinct_names(names.push(n)) == distinct_names(
            names,
        ).push(n),
        n.len() == 0 || names.contains(n) ==> distinct_names(names.push(n)) == distinct_names(
            names,
        ),
        distinct_names(Seq::<Seq<char>>::empty()) == Seq::<Seq<char>>::empty(),
{
    lemma_distinct_names(names);
    assert(names.push(n).drop_last() =~= names);
    assert(distinct_names(names).contains(n) <==> n.len() > 0 && names.contains(n));
}

/// A log gives the plugins, and a document is repaired, as the laws say.
pub proof fn lemma_calls(
    tail: &str,
    named: Vec<String>,
    doc: Json,
    plugins: &Vec<String>,
    r: Result<(Json, usize), String>,
)
    requires
        call_ensures(extract_bad_bundle_plugins, (tail,), named),
        call_ensures(remove_bundles, (doc, plugins), r),
    ensures
        text::texts(named@) == distinct_names(complained_names(tail@)),
        r is Ok <==> repaired(doc@, text::texts(plugins@)) is Ok,
        r matches Ok((after, n)) ==> repaired(doc@, text::texts(plugins@)) == Ok::<
            (JsonTree, int),
            Seq<char>,
        >((after@, n as int)),
        r matches Err(e) ==> e@ == if bundles_of(doc@) is None {
            "profile package.json 缺少 dsh.profile.bundles"@
        } else {
            "未在 bundles 中找到指定插件"@
        },
{
}

} // verus!
