//! Version numbers: which are pre-releases, and how they are ordered.
use vstd::prelude::*;

use crate::text;

verus! {

/// The part of a version that counts for the order: all but the build metadata,
/// which a plus sign starts.
pub open spec fn ranked_part(v: Seq<char>) -> Seq<char> {
    v.take(text::position(v, '+'))
}

/// The part of a version before its first hyphen: the release number.
pub open spec fn release_part(v: Seq<char>) -> Seq<char> {
    v.take(text::position(v, '-'))
}

/// The part of a version behind its first hyphen: the pre-release part, empty
/// where there is no hyphen.
pub open spec fn prerelease_part(v: Seq<char>) -> Seq<char> {
    if text::position(v, '-') < v.len() {
        v.skip(text::position(v, '-') + 1)
    } else {
        seq![]
    }
}

/// The number that `s` spells, where it fits in 64 bits.
pub open spec fn release_number(s: Seq<char>) -> Option<nat> {
    match text::spelled_number(s) {
        Some(n) if n <= u64::MAX => Some(n),
        _ => None,
    }
}

/// The numbers that the strings of `segments` spell; a string that spells none
/// is left out.
pub open spec fn numbers_of(segments: Seq<Seq<char>>) -> Seq<nat>
    decreases segments.len(),
{
    if segments.len() == 0 {
        seq![]
    } else {
        match release_number(segments.last()) {
            Some(n) => numbers_of(segments.drop_last()).push(n),
            None => numbers_of(segments.drop_last()),
        }
    }
}

/// The release numbers of a version, major number first.
pub open spec fn release_numbers(v: Seq<char>) -> Seq<nat> {
    numbers_of(text::split(release_part(ranked_part(v)), '.'))
}

/// The pre-release identifiers of a version; none for a normal version.
pub open spec fn identifiers(v: Seq<char>) -> Seq<Seq<char>> {
    if prerelease_part(ranked_part(v)).len() == 0 {
        seq![]
    } else {
        text::split(prerelease_part(ranked_part(v)), '.')
    }
}

/// The first number, 0 where there is none.
pub open spec fn head_number(s: Seq<nat>) -> nat {
    if s.len() > 0 {
        s[0]
    } else {
        0
    }
}

/// Everything behind the first element.
pub open spec fn tail_of<T>(s: Seq<T>) -> Seq<T> {
    if s.len() > 0 {
        s.skip(1)
    } else {
        s
    }
}

/// Whether the release number `a` is lower than `b`: the first numbers that
/// differ decide, and a missing number counts as 0.
pub open spec fn numbers_less(a: Seq<nat>, b: Seq<nat>) -> bool
    decreases a.len() + b.len(),
{
    if a.len() == 0 && b.len() == 0 {
        false
    } else if head_number(a) != head_number(b) {
        head_number(a) < head_number(b)
    } else {
        numbers_less(tail_of(a), tail_of(b))
    }
}

/// The first identifier, empty where there is none.
pub open spec fn head_identifier(s: Seq<Seq<char>>) -> Seq<char> {
    if s.len() > 0 {
        s[0]
    } else {
        seq![]
    }
}

/// Whether the identifiers `a` are lower than `b`: the first identifiers that
/// differ decide, character by character, and a missing one counts as empty.
pub open spec fn identifiers_less(a: Seq<Seq<char>>, b: Seq<Seq<char>>) -> bool
    decreases a.len() + b.len(),
{
    if a.len() == 0 && b.len() == 0 {
        false
    } else if head_identifier(a) != head_identifier(b) {
        text::text_less(head_identifier(a), head_identifier(b))
    } else {
        identifiers_less(tail_of(a), tail_of(b))
    }
}

/// Whether the version `a` is higher than `b`. The release numbers decide;
/// where they are equal, a normal version is higher than a pre-release, and of
/// two pre-releases the identifiers decide.
pub open spec fn version_higher(a: Seq<char>, b: Seq<char>) -> bool {
    let (an, bn) = (release_numbers(a), release_numbers(b));
    let (ap, bp) = (identifiers(a), identifiers(b));
    ||| numbers_less(bn, an)
    ||| {
        &&& !numbers_less(an, bn)
        &&& bp.len() > 0
        &&& ap.len() == 0 || identifiers_less(bp, ap)
    }
}

proof fn lemma_numbers_less(a: Seq<nat>, b: Seq<nat>, c: Seq<nat>)
    ensures
        !(numbers_less(a, b) && numbers_less(b, a)),
        numbers_less(a, c) ==> numbers_less(a, b) || numbers_less(b, c),
    decreases a.len() + b.len() + c.len(),
{
    if a.len() + b.len() + c.len() > 0 {
        lemma_numbers_less(tail_of(a), tail_of(b), tail_of(c));
    }
}

proof fn lemma_identifiers_less(a: Seq<Seq<char>>, b: Seq<Seq<char>>, c: Seq<Seq<char>>)
    ensures
        !(identifiers_less(a, b) && identifiers_less(b, a)),
        identifiers_less(a, c) ==> identifiers_less(a, b) || identifiers_less(b, c),
    decreases a.len() + b.len() + c.len(),
{
    let (x, y, z) = (head_identifier(a), head_identifier(b), head_identifier(c));
    text::lemma_text_less_total(x, y);
    text::lemma_text_less_total(y, z);
    text::lemma_text_less_total(x, z);
    if text::text_less(x, z) {
        text::lemma_text_less_splits(x, y, z);
    }
    if a.len() + b.len() + c.len() > 0 {
        lemma_identifiers_less(tail_of(a), tail_of(b), tail_of(c));
    }
}

/// No version is higher than itself, and of two versions at most one is higher
/// than the other.
pub proof fn lemma_version_higher_asymmetric(a: Seq<char>, b: Seq<char>)
    ensures
        !(version_higher(a, b) && version_higher(b, a)),
        !version_higher(a, a),
{
    let (an, bn) = (release_numbers(a), release_numbers(b));
    let (ap, bp) = (identifiers(a), identifiers(b));
    lemma_numbers_less(an, bn, an);
    lemma_numbers_less(an, an, an);
    lemma_identifiers_less(ap, bp, ap);
    lemma_identifiers_less(ap, ap, ap);
}

/// Where `a` is higher than `c`, every version `b` is lower than `a` or higher
/// than `c`. So "not higher" is transitive, and so is being equal in rank.
pub proof fn lemma_version_higher_splits(a: Seq<char>, b: Seq<char>, c: Seq<char>)
    requires
        version_higher(a, c),
    ensures
        version_higher(a, b) || version_higher(b, c),
{
    let (an, bn, cn) = (release_numbers(a), release_numbers(b), release_numbers(c));
    let (ap, bp, cp) = (identifiers(a), identifiers(b), identifiers(c));
    lemma_numbers_less(cn, bn, an);
    lemma_numbers_less(an, bn, cn);
    lemma_numbers_less(an, cn, bn);
    lemma_numbers_less(bn, an, cn);
    lemma_numbers_less(bn, cn, an);
    lemma_numbers_less(cn, an, bn);
    lemma_identifiers_less(cp, bp, ap);
}

/// The order of versions is transitive.
pub proof fn lemma_version_higher_transitive(a: Seq<char>, b: Seq<char>, c: Seq<char>)
    requires
        version_higher(a, b),
        version_higher(b, c),
    ensures
        version_higher(a, c),
{
    lemma_version_higher_splits(a, c, b);
    lemma_version_higher_asymmetric(b, c);
}

/// Build metadata does not count: with it a version is neither higher nor lower
/// than without it, and stands to every other version as without it.
pub proof fn lemma_build_metadata_does_not_count(v: Seq<char>, build: Seq<char>, w: Seq<char>)
    requires
        !v.contains('+'),
    ensures
        same_rank(v.push('+') + build, v),
        version_higher(v.push('+') + build, w) == version_higher(v, w),
        version_higher(w, v.push('+') + build) == version_higher(w, v),
{
    let built = v.push('+') + build;
    text::lemma_position_of_first(v, '+', build);
    assert(built =~= v + seq!['+'] + build);
    assert(ranked_part(built) =~= v);
    assert(ranked_part(v) =~= v);
    lemma_version_higher_asymmetric(v, v);
}

/// A normal version is higher than each of its pre-releases.
pub proof fn lemma_normal_above_its_prereleases(v: Seq<char>, suffix: Seq<char>)
    requires
        !v.contains('-') && !v.contains('+'),
        suffix.len() > 0 && suffix[0] != '+',
    ensures
        version_higher(v, v.push('-') + suffix),
{
    let cut = suffix.take(text::position(suffix, '+'));
    let pre = v.push('-') + cut;
    lemma_cut_suffix(v, suffix);
    text::lemma_position_is_first(suffix, '+');
    text::lemma_position_is_first(v, '-');
    text::lemma_position_is_first(pre, '-');
    assert(text::position(v, '-') == v.len()) by {
        if text::position(v, '-') < v.len() {
            assert(v.contains(v[text::position(v, '-')]));
        }
    }
    assert(text::position(pre, '-') == v.len()) by {
        assert(pre[v.len() as int] == '-');
        if text::position(pre, '-') < v.len() {
            assert(pre[text::position(pre, '-')] == v[text::position(pre, '-')]);
            assert(v.contains(v[text::position(pre, '-')]));
        }
    }
    assert(ranked_part(v) =~= v) by {
        text::lemma_position_of_first(v, '+', seq![]);
    }
    assert(release_part(pre) =~= v);
    assert(release_part(v) =~= v);
    assert(prerelease_part(pre) =~= cut);
    lemma_numbers_less(release_numbers(v), release_numbers(v), release_numbers(v));
}

/// The metadata behind a pre-release part is cut off there.
proof fn lemma_cut_suffix(v: Seq<char>, suffix: Seq<char>)
    requires
        !v.contains('+'),
        suffix.len() > 0 && suffix[0] != '+',
    ensures
        ranked_part(v.push('-') + suffix) == v.push('-') + suffix.take(
            text::position(suffix, '+'),
        ),
        text::position(suffix, '+') > 0,
{
    let whole = v.push('-') + suffix;
    let i = text::position(suffix, '+');
    let j = text::position(whole, '+');
    text::lemma_position_is_first(suffix, '+');
    text::lemma_position_is_first(whole, '+');
    assert(j == v.len() + 1 + i) by {
        if j < v.len() {
            assert(v.contains(v[j]));
        } else if j > v.len() && j < v.len() + 1 + i {
            assert(whole[j] == suffix[j - v.len() - 1]);
        } else if j > v.len() + 1 + i {
            assert(whole[v.len() + 1 + i] == suffix[i]);
        }
    }
    assert(ranked_part(whole) =~= v.push('-') + suffix.take(i));
}

/// What the numbers in `v` are.
pub open spec fn values(v: Seq<u64>) -> Seq<nat> {
    v.map_values(|x: u64| x as nat)
}

/// The position of the hyphen that ends the release number, or the length.
fn hyphen(v: &Vec<char>) -> (r: usize)
    ensures
        r == text::position(v@, '-'),
        r <= v@.len(),
{
    assert(v@.skip(0) =~= v@);
    text::position_from(v, '-', 0)
}

/// The part of a version that counts for the order.
pub(crate) fn read_ranked(v: &Vec<char>) -> (r: Vec<char>)
    ensures
        r@ == ranked_part(v@),
{
    assert(v@.skip(0) =~= v@);
    let end = text::position_from(v, '+', 0);
    let r = text::slice_chars(v, 0, end);
    assert(r@ =~= ranked_part(v@));
    r
}

/// The release numbers in the part of a version that counts for the order.
fn read_numbers(v: &Vec<char>) -> (r: Vec<u64>)
    ensures
        values(r@) == numbers_of(text::split(release_part(v@), '.')),
{
    let core = text::slice_chars(v, 0, hyphen(v));
    let segments = text::split_char(&core, '.');
    let ghost model = text::split(release_part(v@), '.');
    let mut out: Vec<u64> = Vec::new();
    assert(core@ =~= release_part(v@));
    assert(values(out@) =~= numbers_of(model.take(0)));
    for i in 0..segments.len()
        invariant
            text::views(segments@) == model,
            values(out@) == numbers_of(model.take(i as int)),
    {
        let ghost before = values(out@);
        proof {
            assert(model.take(i as int + 1).drop_last() =~= model.take(i as int));
            assert(model[i as int] == segments@[i as int]@);
        }
        if let Some(n) = text::parse_number(&segments[i], u64::MAX) {
            out.push(n);
            assert(values(out@) =~= before.push(n as nat));
        }
    }
    assert(model.take(model.len() as int) =~= model);
    out
}

/// The pre-release part of a version.
fn read_prerelease(v: &Vec<char>) -> (r: Vec<char>)
    ensures
        r@ == prerelease_part(v@),
{
    let i = hyphen(v);
    if i < v.len() {
        let r = text::slice_chars(v, i + 1, v.len());
        assert(r@ =~= v@.skip(i as int + 1));
        r
    } else {
        Vec::new()
    }
}

/// The pre-release identifiers in the part of a version that counts for the
/// order.
fn read_identifiers(v: &Vec<char>) -> (r: Vec<Vec<char>>)
    ensures
        text::views(r@) == (if prerelease_part(v@).len() == 0 {
            Seq::<Seq<char>>::empty()
        } else {
            text::split(prerelease_part(v@), '.')
        }),
{
    let pre = read_prerelease(v);
    if pre.len() == 0 {
        let r: Vec<Vec<char>> = Vec::new();
        assert(text::views(r@) =~= seq![]);
        r
    } else {
        text::split_char(&pre, '.')
    }
}

/// Whether the release number `a` is lower than `b`.
fn is_number_less(a: &Vec<u64>, b: &Vec<u64>) -> (r: bool)
    ensures
        r == numbers_less(values(a@), values(b@)),
{
    let ghost (am, bm) = (values(a@), values(b@));
    let mut i: usize = 0;
    assert(rest_of(am, 0) =~= am);
    assert(rest_of(bm, 0) =~= bm);
    while i < a.len() || i < b.len()
        invariant
            am == values(a@),
            bm == values(b@),
            i <= a@.len() || i <= b@.len(),
            numbers_less(rest_of(am, i as int), rest_of(bm, i as int)) == numbers_less(am, bm),
        decreases a@.len() + b@.len() - i,
    {
        let x: u64 = if i < a.len() {
            a[i]
        } else {
            0
        };
        let y: u64 = if i < b.len() {
            b[i]
        } else {
            0
        };
        assert(x == head_number(rest_of(am, i as int)));
        assert(y == head_number(rest_of(bm, i as int)));
        if x != y {
            return x < y;
        }
        assert(tail_of(rest_of(am, i as int)) =~= rest_of(am, i as int + 1));
        assert(tail_of(rest_of(bm, i as int)) =~= rest_of(bm, i as int + 1));
        i = i + 1;
    }
    false
}

/// What is left of `s` behind its first `i` elements.
spec fn rest_of<T>(s: Seq<T>, i: int) -> Seq<T> {
    if i < s.len() {
        s.skip(i)
    } else {
        seq![]
    }
}

/// Whether the identifiers `a` are lower than `b`.
fn is_identifier_less(a: &Vec<Vec<char>>, b: &Vec<Vec<char>>) -> (r: bool)
    ensures
        r == identifiers_less(text::views(a@), text::views(b@)),
{
    let ghost (am, bm) = (text::views(a@), text::views(b@));
    let mut i: usize = 0;
    let nothing: Vec<char> = Vec::new();
    assert(rest_of(am, 0) =~= am);
    assert(rest_of(bm, 0) =~= bm);
    while i < a.len() || i < b.len()
        invariant
            am == text::views(a@),
            bm == text::views(b@),
            nothing@.len() == 0,
            i <= a@.len() || i <= b@.len(),
            identifiers_less(rest_of(am, i as int), rest_of(bm, i as int)) == identifiers_less(
                am,
                bm,
            ),
        decreases a@.len() + b@.len() - i,
    {
        let x = if i < a.len() {
            &a[i]
        } else {
            &nothing
        };
        let y = if i < b.len() {
            &b[i]
        } else {
            &nothing
        };
        proof {
            assert(x@ =~= head_identifier(rest_of(am, i as int)));
            assert(y@ =~= head_identifier(rest_of(bm, i as int)));
            text::lemma_text_less_total(x@, y@);
        }
        if text::is_less(x, y) {
            return true;
        }
        if text::is_less(y, x) {
            return false;
        }
        assert(tail_of(rest_of(am, i as int)) =~= rest_of(am, i as int + 1));
        assert(tail_of(rest_of(bm, i as int)) =~= rest_of(bm, i as int + 1));
        i = i + 1;
    }
    false
}

/// Whether the version `a` is higher than `b`.
pub fn is_higher(a: &str, b: &str) -> (r: bool)
    ensures
        r == version_higher(a@, b@),
{
    let (av, bv) = (read_ranked(&text::to_chars(a)), read_ranked(&text::to_chars(b)));
    let (an, bn) = (read_numbers(&av), read_numbers(&bv));
    if is_number_less(&bn, &an) {
        return true;
    }
    if is_number_less(&an, &bn) {
        return false;
    }
    let (ap, bp) = (read_identifiers(&av), read_identifiers(&bv));
    assert(ap@.len() == identifiers(a@).len());
    assert(bp@.len() == identifiers(b@).len());
    bp.len() > 0 && (ap.len() == 0 || is_identifier_less(&bp, &ap))
}

/// Compares two versions for a list with the highest version first: `Less`
/// where `a` is the higher one.
pub fn semver_desc_cmp(a: &str, b: &str) -> (r: std::cmp::Ordering)
    ensures
        r is Less <==> version_higher(a@, b@),
        r is Greater <==> version_higher(b@, a@),
        r is Equal <==> !version_higher(a@, b@) && !version_higher(b@, a@),
{
    proof {
        lemma_version_higher_asymmetric(a@, b@);
    }
    if is_higher(a, b) {
        std::cmp::Ordering::Less
    } else if is_higher(b, a) {
        std::cmp::Ordering::Greater
    } else {
        std::cmp::Ordering::Equal
    }
}

// Sorting.

/// `sorted`, with `v` put in behind the last version that is not lower.
pub open spec fn insert_version(sorted: Seq<Seq<char>>, v: Seq<char>) -> Seq<Seq<char>>
    decreases sorted.len(),
{
    if sorted.len() > 0 && version_higher(v, sorted.last()) {
        insert_version(sorted.drop_last(), v).push(sorted.last())
    } else {
        sorted.push(v)
    }
}

/// The versions of `vs`, the highest first. Versions of the same rank keep
/// their order.
pub open spec fn sorted_desc(vs: Seq<Seq<char>>) -> Seq<Seq<char>>
    decreases vs.len(),
{
    if vs.len() == 0 {
        seq![]
    } else {
        insert_version(sorted_desc(vs.drop_last()), vs.last())
    }
}

proof fn lemma_insert_version_at(sorted: Seq<Seq<char>>, v: Seq<char>, p: int)
    requires
        0 <= p <= sorted.len(),
        p > 0 ==> !version_higher(v, sorted[p - 1]),
        forall|i: int| p <= i < sorted.len() ==> version_higher(v, #[trigger] sorted[i]),
    ensures
        insert_version(sorted, v) == sorted.insert(p, v),
    decreases sorted.len(),
{
    if p == sorted.len() {
        assert(sorted.insert(p, v) =~= sorted.push(v));
    } else {
        lemma_insert_version_at(sorted.drop_last(), v, p);
        assert(sorted.drop_last().insert(p, v).push(sorted.last()) =~= sorted.insert(p, v));
    }
}

/// Sorts versions, the highest first. Versions of the same rank keep their
/// order.
pub fn sort_versions(vs: &Vec<String>) -> (r: Vec<String>)
    ensures
        text::texts(r@) == sorted_desc(text::texts(vs@)),
{
    let ghost model = text::texts(vs@);
    let mut out: Vec<String> = Vec::new();
    assert(text::texts(out@) =~= sorted_desc(model.take(0)));
    for k in 0..vs.len()
        invariant
            model == text::texts(vs@),
            text::texts(out@) == sorted_desc(model.take(k as int)),
    {
        let ghost before = text::texts(out@);
        let mut p: usize = out.len();
        while p > 0 && is_higher(vs[k].as_str(), out[p - 1].as_str())
            invariant
                k < vs@.len(),
                p <= out@.len(),
                before == text::texts(out@),
                forall|i: int| p <= i < before.len() ==> version_higher(vs@[k as int]@, #[trigger] before[i]),
            decreases p,
        {
            p = p - 1;
        }
        out.insert(p, vs[k].clone());
        proof {
            assert(text::texts(out@) =~= before.insert(p as int, vs@[k as int]@));
            lemma_insert_version_at(before, vs@[k as int]@, p as int);
            assert(model.take(k as int + 1).drop_last() =~= model.take(k as int));
        }
    }
    assert(model.take(vs@.len() as int) =~= model);
    out
}

/// Whether no version of `vs` is higher than one that stands before it.
pub open spec fn highest_first(vs: Seq<Seq<char>>) -> bool {
    forall|i: int, j: int| 0 <= i < j < vs.len() ==> !version_higher(#[trigger] vs[j], #[trigger] vs[i])
}

/// Whether two versions have the same rank.
pub open spec fn same_rank(a: Seq<char>, b: Seq<char>) -> bool {
    !version_higher(a, b) && !version_higher(b, a)
}

/// The versions of `vs` that have the rank of `w`, in their order.
pub open spec fn of_rank(vs: Seq<Seq<char>>, w: Seq<char>) -> Seq<Seq<char>>
    decreases vs.len(),
{
    if vs.len() == 0 {
        seq![]
    } else if same_rank(vs.last(), w) {
        of_rank(vs.drop_last(), w).push(vs.last())
    } else {
        of_rank(vs.drop_last(), w)
    }
}

proof fn lemma_insert_version(sorted: Seq<Seq<char>>, v: Seq<char>, w: Seq<char>)
    requires
        highest_first(sorted),
    ensures
        highest_first(insert_version(sorted, v)),
        insert_version(sorted, v).to_multiset() == sorted.to_multiset().insert(v),
        of_rank(insert_version(sorted, v), w) == if same_rank(v, w) {
            of_rank(sorted, w).push(v)
        } else {
            of_rank(sorted, w)
        },
        forall|x: Seq<char>| #[trigger]
            insert_version(sorted, v).contains(x) ==> sorted.contains(x) || x == v,
    decreases sorted.len(),
{
    broadcast use vstd::seq_lib::group_to_multiset_ensures;

    let r = insert_version(sorted, v);
    if sorted.len() > 0 && version_higher(v, sorted.last()) {
        let short = sorted.drop_last();
        let last = sorted.last();
        lemma_insert_version(short, v, w);
        let inner = insert_version(short, v);
        assert(r == inner.push(last));
        assert(r.drop_last() =~= inner);
        assert(sorted =~= short.push(last));
        assert forall|i: int, j: int| 0 <= i < j < r.len() implies !version_higher(
            #[trigger] r[j],
            #[trigger] r[i],
        ) by {
            if j == r.len() - 1 {
                assert(inner.contains(inner[i]));
                if inner[i] == v {
                    lemma_version_higher_asymmetric(v, last);
                } else {
                    let k = choose|k: int| 0 <= k < short.len() && short[k] == inner[i];
                    assert(sorted[k] == inner[i]);
                    assert(sorted[sorted.len() - 1] == last);
                }
            } else {
                assert(inner[i] == r[i] && inner[j] == r[j]);
            }
        }
        if same_rank(last, w) && same_rank(v, w) {
            lemma_version_higher_splits(v, w, last);
        }
        assert forall|x: Seq<char>| #[trigger] r.contains(x) implies sorted.contains(x) || x
            == v by {
            let k = choose|k: int| 0 <= k < r.len() && r[k] == x;
            if k < inner.len() {
                assert(inner[k] == x);
                assert(inner.contains(x));
                if short.contains(x) {
                    let m = choose|m: int| 0 <= m < short.len() && short[m] == x;
                    assert(sorted[m] == x);
                }
            } else {
                assert(sorted[sorted.len() - 1] == x);
            }
        }
        assert(r.to_multiset() =~= sorted.to_multiset().insert(v));
    } else {
        assert(r.drop_last() =~= sorted);
        assert forall|i: int, j: int| 0 <= i < j < r.len() implies !version_higher(
            #[trigger] r[j],
            #[trigger] r[i],
        ) by {
            if j == r.len() - 1 {
                if version_higher(v, sorted[i]) {
                    lemma_version_higher_splits(v, sorted.last(), sorted[i]);
                    if i == sorted.len() - 1 {
                        assert(sorted.last() == sorted[i]);
                    } else {
                        assert(!version_higher(sorted[sorted.len() - 1], sorted[i]));
                    }
                }
            }
        }
        assert forall|x: Seq<char>| #[trigger] r.contains(x) implies sorted.contains(x) || x
            == v by {
            let k = choose|k: int| 0 <= k < r.len() && r[k] == x;
            if k < sorted.len() {
                assert(sorted[k] == x);
            }
        }
    }
}

/// A sorted list holds the same versions as often as the list it was made of;
/// no version in it is higher than one that stands before it; and versions of
/// the same rank keep their order.
pub proof fn lemma_sorted_desc(vs: Seq<Seq<char>>, w: Seq<char>)
    ensures
        highest_first(sorted_desc(vs)),
        sorted_desc(vs).to_multiset() == vs.to_multiset(),
        of_rank(sorted_desc(vs), w) == of_rank(vs, w),
    decreases vs.len(),
{
    broadcast use vstd::seq_lib::group_to_multiset_ensures;

    if vs.len() > 0 {
        lemma_sorted_desc(vs.drop_last(), w);
        lemma_insert_version(sorted_desc(vs.drop_last()), vs.last(), w);
        assert(vs =~= vs.drop_last().push(vs.last()));
    } else {
        assert(vs =~= seq![]);
    }
}

// Pre-releases.

/// Whether `c` separates pre-release identifiers.
pub open spec fn is_separator(c: char) -> bool {
    c == '-' || c == '.'
}

/// `c` with an ASCII capital letter made small.
pub open spec fn small_letter(c: char) -> char {
    if 'A' <= c <= 'Z' {
        ((c as int) + 32) as char
    } else {
        c
    }
}

/// `s` with its ASCII capital letters made small.
pub open spec fn small_letters(s: Seq<char>) -> Seq<char> {
    s.map_values(|c: char| small_letter(c))
}

/// Whether `s` is one of the words that mark a pre-release.
pub open spec fn marks_prerelease(s: Seq<char>) -> bool {
    let w = small_letters(s);
    w == "alpha"@ || w == "beta"@ || w == "pre"@ || w == "canary"@ || w == "rc"@
}

/// Whether the characters of `s` from `lo` up to `hi` are a whole piece
/// between separators.
pub open spec fn is_piece(s: Seq<char>, lo: int, hi: int) -> bool {
    &&& 0 <= lo <= hi <= s.len()
    &&& lo == 0 || is_separator(s[lo - 1])
    &&& hi == s.len() || is_separator(s[hi])
    &&& forall|i: int| lo <= i < hi ==> !is_separator(#[trigger] s[i])
}

/// Whether some piece of the pre-release part marks a pre-release.
pub open spec fn is_prerelease(v: Seq<char>) -> bool {
    exists|lo: int, hi: int| #[trigger]
        is_piece(prerelease_part(v), lo, hi) && marks_prerelease(
            prerelease_part(v).subrange(lo, hi),
        )
}

/// `c` with an ASCII capital letter made small.
fn to_small(c: char) -> (r: char)
    ensures
        r == small_letter(c),
{
    if 'A' <= c && c <= 'Z' {
        (c as u8 + 32) as char
    } else {
        c
    }
}

/// Whether `s` is `word` but for ASCII capital letters.
fn is_word(s: &Vec<char>, word: &str) -> (r: bool)
    ensures
        r == (small_letters(s@) == word@),
{
    let w = text::to_chars(word);
    if s.len() != w.len() {
        return false;
    }
    for i in 0..s.len()
        invariant
            s@.len() == w@.len(),
            w@ == word@,
            forall|j: int| 0 <= j < i ==> small_letter(s@[j]) == w@[j],
    {
        if to_small(s[i]) != w[i] {
            assert(small_letters(s@)[i as int] != word@[i as int]);
            return false;
        }
    }
    assert(small_letters(s@) =~= word@);
    true
}

/// Whether the piece of `s` from `lo` up to `hi` marks a pre-release.
fn is_marker(s: &Vec<char>, lo: usize, hi: usize) -> (r: bool)
    requires
        lo <= hi <= s@.len(),
    ensures
        r == marks_prerelease(s@.subrange(lo as int, hi as int)),
{
    let piece = text::slice_chars(s, lo, hi);
    is_word(&piece, "alpha") || is_word(&piece, "beta") || is_word(&piece, "pre") || is_word(
        &piece,
        "canary",
    ) || is_word(&piece, "rc")
}

/// Whether no piece of `s` that ends before `end` marks a pre-release.
spec fn no_marker_before(s: Seq<char>, end: int) -> bool {
    forall|lo: int, hi: int|
        hi < end && #[trigger] is_piece(s, lo, hi) ==> !marks_prerelease(s.subrange(lo, hi))
}

proof fn lemma_next_piece(s: Seq<char>, start: int, end: int)
    requires
        is_piece(s, start, end),
        no_marker_before(s, end),
        !marks_prerelease(s.subrange(start, end)),
    ensures
        no_marker_before(s, end + 1),
{
    assert forall|lo: int, hi: int|
        hi < end + 1 && #[trigger] is_piece(s, lo, hi) implies !marks_prerelease(
        s.subrange(lo, hi),
    ) by {
        if hi == end {
            if lo < start {
                assert(is_separator(s[start - 1]));
            } else if lo > start {
                assert(is_separator(s[lo - 1]));
            }
        }
    }
}

/// Whether a version is a pre-release: one of the identifiers behind its first
/// hyphen, cut at hyphens and full stops, is alpha, beta, pre, canary or rc, in
/// small or capital letters.
pub fn is_prerelease_version(v: &str) -> (r: bool)
    ensures
        r == is_prerelease(v@),
{
    let pre = read_prerelease(&text::to_chars(v));
    let mut start: usize = 0;
    for i in 0..pre.len()
        invariant
            pre@ == prerelease_part(v@),
            start <= i,
            start == 0 || is_separator(pre@[start - 1]),
            forall|k: int| start <= k < i ==> !is_separator(#[trigger] pre@[k]),
            no_marker_before(pre@, i as int),
    {
        if pre[i] == '-' || pre[i] == '.' {
            assert(is_piece(pre@, start as int, i as int));
            if is_marker(&pre, start, i) {
                return true;
            }
            proof {
                lemma_next_piece(pre@, start as int, i as int);
            }
            start = i + 1;
        }
    }
    assert(is_piece(pre@, start as int, pre@.len() as int));
    let found = is_marker(&pre, start, pre.len());
    proof {
        if !found {
            lemma_next_piece(pre@, start as int, pre@.len() as int);
        }
    }
    found
}

// What the order means.

/// Numbers in decimal.
pub open spec fn decimals(numbers: Seq<nat>) -> Seq<Seq<char>> {
    numbers.map_values(|n: nat| text::decimal(n))
}

/// Numbers in decimal, parted by full stops.
pub open spec fn dotted(numbers: Seq<nat>) -> Seq<char> {
    text::joined(decimals(numbers), seq!['.'])
}

/// What stands behind a release number: nothing, a pre-release part or build
/// metadata.
pub open spec fn is_suffix(p: Seq<char>) -> bool {
    p.len() == 0 || p[0] == '-' || p[0] == '+'
}

/// The number at a position, 0 where there is none.
pub open spec fn number_at(numbers: Seq<nat>, i: int) -> nat {
    if 0 <= i < numbers.len() {
        numbers[i]
    } else {
        0
    }
}

/// The first numbers that differ decide.
proof fn lemma_first_number_decides(a: Seq<nat>, b: Seq<nat>, k: int)
    requires
        0 <= k,
        forall|j: int|
            0 <= j < k ==> #[trigger] number_at(a, j) == #[trigger] number_at(b, j),
        number_at(a, k) < number_at(b, k),
    ensures
        numbers_less(a, b),
    decreases k,
{
    if k > 0 {
        assert(number_at(a, 0) == number_at(b, 0));
        let (x, y) = (tail_of(a), tail_of(b));
        assert forall|j: int| 0 <= j < k - 1 implies #[trigger] number_at(x, j) == #[trigger] number_at(y, j) by {
            assert(j + 1 < a.len() ==> x[j] == a[j + 1]);
            assert(j + 1 < b.len() ==> y[j] == b[j + 1]);
            assert(number_at(a, j + 1) == number_at(b, j + 1));
        }
        lemma_first_number_decides(x, y, k - 1);
    }
}

/// A text that is joined of pieces holds no character that neither a piece nor
/// the separator is made of.
pub proof fn lemma_joined_without(pieces: Seq<Seq<char>>, sep: char, c: char)
    requires
        c != sep,
        forall|i: int| 0 <= i < pieces.len() ==> !(#[trigger] pieces[i]).contains(c),
    ensures
        !text::joined(pieces, seq![sep]).contains(c),
    decreases pieces.len(),
{
    let s = text::joined(pieces, seq![sep]);
    if pieces.len() > 1 {
        let short = pieces.drop_last();
        assert forall|i: int| 0 <= i < short.len() implies !(#[trigger] short[i]).contains(c) by {
            assert(short[i] == pieces[i]);
        }
        lemma_joined_without(short, sep, c);
        let head = text::joined(short, seq![sep]);
        if s.contains(c) {
            let k = choose|k: int| 0 <= k < s.len() && s[k] == c;
            if k < head.len() {
                assert(head[k] == c);
            } else if k > head.len() {
                let last = pieces[pieces.len() - 1];
                assert(last[k - head.len() - 1] == c);
                assert(last.contains(c));
            }
        }
    }
}

/// What is cut off behind the release number.
pub proof fn lemma_suffix_is_cut(core: Seq<char>, p: Seq<char>)
    requires
        !core.contains('+') && !core.contains('-'),
        is_suffix(p),
    ensures
        release_part(ranked_part(core + p)) == core,
        p.len() == 0 || p[0] == '+' ==> ranked_part(core + p) == core,
        p.len() > 0 && p[0] == '-' ==> prerelease_part(ranked_part(core + p)) == p.skip(1).take(
            text::position(p.skip(1), '+'),
        ),
{
    let s = core + p;
    let n = core.len() as int;
    let i = text::position(s, '+');
    text::lemma_position_is_first(s, '+');
    let ranked = ranked_part(s);
    let h = text::position(ranked, '-');
    text::lemma_position_is_first(ranked, '-');
    if i < n {
        assert(core.contains(s[i]));
    }
    if h < n && h < ranked.len() {
        assert(ranked[h] == core[h]);
        assert(core.contains(core[h]));
    }
    if p.len() == 0 || p[0] == '+' {
        if p.len() > 0 {
            assert(s[n] == '+');
        }
        assert(i == n);
        assert(ranked =~= core);
        assert(release_part(ranked) =~= core);
    } else {
        assert(s[n] == '-');
        assert(i > n);
        assert(ranked[n] == '-');
        assert(h == n);
        assert(release_part(ranked) =~= core);
        let q = p.skip(1);
        let m = text::position(q, '+');
        text::lemma_position_is_first(q, '+');
        assert(i == n + 1 + m) by {
            if i < n + 1 + m && i < s.len() {
                assert(s[i] == q[i - n - 1]);
            } else if i > n + 1 + m {
                assert(s[n + 1 + m] == q[m]);
            }
        }
        assert(prerelease_part(ranked) =~= q.take(m));
    }
}

/// A decimal form is made of digits.
proof fn lemma_decimals_are_digits(numbers: Seq<nat>, c: char)
    requires
        !text::is_digit(c),
    ensures
        forall|i: int|
            0 <= i < numbers.len() ==> !(#[trigger] decimals(numbers)[i]).contains(c),
{
    let pieces = decimals(numbers);
    assert forall|i: int| 0 <= i < numbers.len() implies !(#[trigger] pieces[i]).contains(c) by {
        text::lemma_decimal_spells(numbers[i]);
        if pieces[i].contains(c) {
            let k = choose|k: int| 0 <= k < pieces[i].len() && pieces[i][k] == c;
            assert(text::is_digit(text::decimal(numbers[i])[k]));
        }
    }
}

/// The numbers that decimal forms spell.
proof fn lemma_numbers_of_decimals(numbers: Seq<nat>)
    requires
        forall|i: int| 0 <= i < numbers.len() ==> #[trigger] numbers[i] <= u64::MAX,
    ensures
        numbers_of(decimals(numbers)) == numbers,
    decreases numbers.len(),
{
    let pieces = decimals(numbers);
    if numbers.len() > 0 {
        let short = numbers.drop_last();
        assert forall|i: int| 0 <= i < short.len() implies #[trigger] short[i] <= u64::MAX by {
            assert(short[i] == numbers[i]);
        }
        lemma_numbers_of_decimals(short);
        assert(pieces.drop_last() =~= decimals(short));
        text::lemma_decimal_spells(numbers.last());
        assert(numbers[numbers.len() - 1] <= u64::MAX);
        assert(short.push(numbers.last()) =~= numbers);
    } else {
        assert(numbers =~= seq![]);
    }
}

/// The release numbers of a version are those that stand before its suffix.
proof fn lemma_release_numbers(numbers: Seq<nat>, p: Seq<char>)
    requires
        numbers.len() > 0,
        forall|i: int| 0 <= i < numbers.len() ==> #[trigger] numbers[i] <= u64::MAX,
        is_suffix(p),
    ensures
        release_numbers(dotted(numbers) + p) == numbers,
        !dotted(numbers).contains('+') && !dotted(numbers).contains('-'),
{
    let pieces = decimals(numbers);
    lemma_decimals_are_digits(numbers, '.');
    lemma_decimals_are_digits(numbers, '+');
    lemma_decimals_are_digits(numbers, '-');
    assert forall|i: int| 0 <= i < pieces.len() implies !(#[trigger] pieces[i]).contains(
        '.',
    ) && !pieces[i].contains('+') && !pieces[i].contains('-') by {}
    lemma_joined_without(pieces, '.', '+');
    lemma_joined_without(pieces, '.', '-');
    lemma_suffix_is_cut(dotted(numbers), p);
    text::lemma_split_undoes_join(pieces, '.');
    lemma_numbers_of_decimals(numbers);
}

/// The release numbers decide, as numbers, whatever stands behind them: of two
/// versions the one with the greater number in the first place where they differ
/// is the higher one. A missing number counts as 0.
pub proof fn lemma_greater_number_is_higher(
    a: Seq<nat>,
    p: Seq<char>,
    b: Seq<nat>,
    q: Seq<char>,
    k: int,
)
    requires
        a.len() > 0 && b.len() > 0,
        forall|i: int| 0 <= i < a.len() ==> #[trigger] a[i] <= u64::MAX,
        forall|i: int| 0 <= i < b.len() ==> #[trigger] b[i] <= u64::MAX,
        is_suffix(p) && is_suffix(q),
        0 <= k,
        forall|j: int|
            0 <= j < k ==> #[trigger] number_at(b, j) == #[trigger] number_at(a, j),
        number_at(b, k) < number_at(a, k),
    ensures
        version_higher(dotted(a) + p, dotted(b) + q),
        !version_higher(dotted(b) + q, dotted(a) + p),
{
    lemma_release_numbers(a, p);
    lemma_release_numbers(b, q);
    lemma_first_number_decides(b, a, k);
    lemma_version_higher_asymmetric(dotted(a) + p, dotted(b) + q);
}

/// Three numbers with full stops between them.
pub open spec fn triple(a: nat, b: nat, c: nat) -> Seq<char> {
    text::decimal(a) + seq!['.'] + text::decimal(b) + seq!['.'] + text::decimal(c)
}

proof fn lemma_triple_is_dotted(a: nat, b: nat, c: nat)
    ensures
        triple(a, b, c) == dotted(seq![a, b, c]),
{
    let v = decimals(seq![a, b, c]);
    reveal_with_fuel(text::joined, 4);
    assert(v.drop_last().drop_last() =~= seq![text::decimal(a)]);
    assert(dotted(seq![a, b, c]) =~= triple(a, b, c));
}

/// Of two versions `major.minor.patch` the one whose numbers are the greater
/// ones, the major number first, is the higher one, and stands first in a list;
/// so two versions that differ in a number are never of the same rank.
pub proof fn lemma_versions_go_by_their_numbers(
    a: nat,
    b: nat,
    c: nat,
    p: Seq<char>,
    x: nat,
    y: nat,
    z: nat,
    q: Seq<char>,
)
    requires
        a <= u64::MAX && b <= u64::MAX && c <= u64::MAX,
        x <= u64::MAX && y <= u64::MAX && z <= u64::MAX,
        is_suffix(p) && is_suffix(q),
        a > x || (a == x && (b > y || (b == y && c > z))),
    ensures
        version_higher(triple(a, b, c) + p, triple(x, y, z) + q),
        !version_higher(triple(x, y, z) + q, triple(a, b, c) + p),
        sorted_desc(seq![triple(x, y, z) + q, triple(a, b, c) + p]) == seq![
            triple(a, b, c) + p,
            triple(x, y, z) + q,
        ],
        sorted_desc(seq![triple(a, b, c) + p, triple(x, y, z) + q]) == seq![
            triple(a, b, c) + p,
            triple(x, y, z) + q,
        ],
{
    lemma_triple_is_dotted(a, b, c);
    lemma_triple_is_dotted(x, y, z);
    let k: int = if a > x {
        0
    } else if b > y {
        1
    } else {
        2
    };
    lemma_greater_number_is_higher(seq![a, b, c], p, seq![x, y, z], q, k);
    let (high, low) = (triple(a, b, c) + p, triple(x, y, z) + q);
    lemma_pair_is_sorted(high, low);
}

proof fn lemma_pair_is_sorted(high: Seq<char>, low: Seq<char>)
    requires
        version_higher(high, low),
        !version_higher(low, high),
    ensures
        sorted_desc(seq![low, high]) == seq![high, low],
        sorted_desc(seq![high, low]) == seq![high, low],
{
    reveal_with_fuel(sorted_desc, 3);
    reveal_with_fuel(insert_version, 3);
    let empty = Seq::<Seq<char>>::empty();
    assert(seq![low, high].drop_last() =~= seq![low]);
    assert(seq![high, low].drop_last() =~= seq![high]);
    assert(seq![low].drop_last() =~= empty);
    assert(seq![high].drop_last() =~= empty);
    assert(empty.push(low) =~= seq![low]);
    assert(empty.push(high) =~= seq![high]);
    assert(empty.push(high).push(low) =~= seq![high, low]);
    assert(insert_version(seq![low], high) =~= seq![high, low]);
    assert(insert_version(seq![high], low) =~= seq![high, low]);
}

/// The same numbers, with nothing or with build metadata behind them, are of the
/// same rank; missing numbers count as 0.
pub proof fn lemma_same_numbers_same_rank(
    a: Seq<nat>,
    p: Seq<char>,
    b: Seq<nat>,
    q: Seq<char>,
)
    requires
        a.len() > 0 && b.len() > 0,
        forall|i: int| 0 <= i < a.len() ==> #[trigger] a[i] <= u64::MAX,
        forall|i: int| 0 <= i < b.len() ==> #[trigger] b[i] <= u64::MAX,
        p.len() > 0 ==> p[0] == '+',
        q.len() > 0 ==> q[0] == '+',
        a.len() <= b.len(),
        forall|j: int| 0 <= j < a.len() ==> #[trigger] a[j] == b[j],
        forall|j: int| a.len() <= j < b.len() ==> #[trigger] b[j] == 0,
    ensures
        !version_higher(dotted(a) + p, dotted(b) + q),
        !version_higher(dotted(b) + q, dotted(a) + p),
{
    lemma_release_numbers(a, p);
    lemma_release_numbers(b, q);
    lemma_suffix_is_cut(dotted(a), p);
    lemma_suffix_is_cut(dotted(b), q);
    lemma_no_hyphen_no_identifiers(dotted(a));
    lemma_no_hyphen_no_identifiers(dotted(b));
    lemma_equal_numbers(a, b);
}

proof fn lemma_no_hyphen_no_identifiers(core: Seq<char>)
    requires
        !core.contains('-'),
    ensures
        prerelease_part(core).len() == 0,
{
    text::lemma_position_of_first(core, '-', seq![]);
}

proof fn lemma_equal_numbers(a: Seq<nat>, b: Seq<nat>)
    requires
        a.len() <= b.len(),
        forall|j: int| 0 <= j < a.len() ==> #[trigger] a[j] == b[j],
        forall|j: int| a.len() <= j < b.len() ==> #[trigger] b[j] == 0,
    ensures
        !numbers_less(a, b),
        !numbers_less(b, a),
    decreases b.len(),
{
    if b.len() > 0 {
        if a.len() > 0 {
            assert(a[0] == b[0]);
        } else {
            assert(b[0] == 0);
        }
        let (x, y) = (tail_of(a), tail_of(b));
        assert forall|j: int| 0 <= j < x.len() implies #[trigger] x[j] == y[j] by {
            assert(a[j + 1] == b[j + 1]);
        }
        assert forall|j: int| x.len() <= j < y.len() implies #[trigger] y[j] == 0 by {
            assert(y[j] == b[j + 1]);
        }
        lemma_equal_numbers(x, y);
    }
}

proof fn lemma_numbers_of_parts(a: Seq<Seq<char>>, b: Seq<Seq<char>>)
    ensures
        numbers_of(a + b) == numbers_of(a) + numbers_of(b),
    decreases b.len(),
{
    if b.len() > 0 {
        lemma_numbers_of_parts(a, b.drop_last());
        assert((a + b).drop_last() =~= a + b.drop_last());
        assert((a + b).last() == b.last());
        assert(numbers_of(a + b) =~= numbers_of(a) + numbers_of(b));
    } else {
        assert(a + b =~= a);
        assert(numbers_of(a + b) =~= numbers_of(a) + numbers_of(b));
    }
}

/// A piece of the release number that is empty or holds anything but digits does
/// not count: the version stands to every other one as it does without it.
pub proof fn lemma_other_pieces_do_not_count(
    a: Seq<Seq<char>>,
    junk: Seq<char>,
    b: Seq<Seq<char>>,
    p: Seq<char>,
    w: Seq<char>,
)
    requires
        (a + b).len() > 0,
        forall|i: int|
            0 <= i < (a + b).len() ==> !(#[trigger] (a + b)[i]).contains('.') && !(a
                + b)[i].contains('-') && !(a + b)[i].contains('+'),
        !junk.contains('.') && !junk.contains('-') && !junk.contains('+'),
        junk.len() == 0 || exists|i: int|
            0 <= i < junk.len() && !('0' <= #[trigger] junk[i] && junk[i] <= '9'),
        is_suffix(p),
    ensures
        ({
            let with = text::joined(a + seq![junk] + b, seq!['.']) + p;
            let without = text::joined(a + b, seq!['.']) + p;
            &&& version_higher(with, w) == version_higher(without, w)
            &&& version_higher(w, with) == version_higher(w, without)
        }),
{
    let all = a + seq![junk] + b;
    let less = a + b;
    assert forall|i: int| 0 <= i < all.len() implies !(#[trigger] all[i]).contains('.')
        && !all[i].contains('-') && !all[i].contains('+') by {
        if i < a.len() {
            assert(all[i] == less[i]);
        } else if i > a.len() {
            assert(all[i] == less[i - 1]);
        }
    }
    let (x, y) = (text::joined(all, seq!['.']), text::joined(less, seq!['.']));
    lemma_joined_without(all, '.', '-');
    lemma_joined_without(all, '.', '+');
    lemma_joined_without(less, '.', '-');
    lemma_joined_without(less, '.', '+');
    lemma_suffix_is_cut(x, p);
    lemma_suffix_is_cut(y, p);
    lemma_no_hyphen_no_identifiers(x);
    lemma_no_hyphen_no_identifiers(y);
    text::lemma_split_undoes_join(all, '.');
    text::lemma_split_undoes_join(less, '.');
    assert(release_number(junk) is None) by {
        if junk.len() > 0 {
            assert(junk.contains(junk[0]));
            assert(text::without_plus(junk) == junk);
            let i = choose|i: int|
                0 <= i < junk.len() && !('0' <= #[trigger] junk[i] && junk[i] <= '9');
            assert(!text::is_digit(junk[i]));
        }
    }
    lemma_numbers_of_parts(a + seq![junk], b);
    lemma_numbers_of_parts(a, seq![junk]);
    lemma_numbers_of_parts(a, b);
    assert(seq![junk].drop_last() =~= Seq::<Seq<char>>::empty());
    reveal_with_fuel(numbers_of, 2);
    assert(numbers_of(seq![junk]) =~= seq![]);
    assert(numbers_of(a) + Seq::<nat>::empty() =~= numbers_of(a));
}

/// The first identifiers that differ decide.
proof fn lemma_first_identifier_decides(
    common: Seq<Seq<char>>,
    a: Seq<Seq<char>>,
    b: Seq<Seq<char>>,
)
    requires
        text::text_less(head_identifier(a), head_identifier(b)),
    ensures
        identifiers_less(common + a, common + b),
    decreases common.len(),
{
    let (x, y) = (common + a, common + b);
    if common.len() > 0 {
        lemma_first_identifier_decides(common.skip(1), a, b);
        assert(tail_of(x) =~= common.skip(1) + a);
        assert(tail_of(y) =~= common.skip(1) + b);
    } else {
        assert(x =~= a);
        assert(y =~= b);
        text::lemma_text_less_total(head_identifier(a), head_identifier(b));
    }
}

/// The identifiers of a pre-release.
proof fn lemma_identifiers(core: Seq<char>, ids: Seq<Seq<char>>)
    requires
        !core.contains('+') && !core.contains('-'),
        ids.len() > 0,
        text::joined(ids, seq!['.']).len() > 0,
        forall|i: int|
            0 <= i < ids.len() ==> !(#[trigger] ids[i]).contains('.') && !ids[i].contains('+'),
    ensures
        identifiers(core + (seq!['-'] + text::joined(ids, seq!['.']))) == ids,
{
    let pre = text::joined(ids, seq!['.']);
    let p = seq!['-'] + pre;
    assert(p.skip(1) =~= pre);
    lemma_joined_without(ids, '.', '+');
    text::lemma_position_of_first(pre, '+', seq![]);
    assert(pre.take(pre.len() as int) =~= pre);
    lemma_suffix_is_cut(core, p);
    text::lemma_split_undoes_join(ids, '.');
}

/// Of two pre-releases of one release number the first identifiers that differ
/// decide, in the order of their characters; a missing identifier stands before
/// every other one.
pub proof fn lemma_prereleases_go_by_their_identifiers(
    core: Seq<char>,
    common: Seq<Seq<char>>,
    a: Seq<Seq<char>>,
    b: Seq<Seq<char>>,
)
    requires
        !core.contains('+') && !core.contains('-'),
        common.len() + a.len() > 0 && text::joined(common + a, seq!['.']).len() > 0,
        common.len() + b.len() > 0 && text::joined(common + b, seq!['.']).len() > 0,
        forall|i: int|
            0 <= i < (common + a).len() ==> !(#[trigger] (common + a)[i]).contains('.')
                && !(common + a)[i].contains('+'),
        forall|i: int|
            0 <= i < (common + b).len() ==> !(#[trigger] (common + b)[i]).contains('.')
                && !(common + b)[i].contains('+'),
        a.len() > 0,
        b.len() == 0 ==> a[0].len() > 0,
        b.len() > 0 ==> text::text_less(b[0], a[0]),
    ensures
        version_higher(
            core + (seq!['-'] + text::joined(common + a, seq!['.'])),
            core + (seq!['-'] + text::joined(common + b, seq!['.'])),
        ),
{
    lemma_identifiers(core, common + a);
    lemma_identifiers(core, common + b);
    lemma_first_identifier_decides(common, b, a);
    lemma_suffix_is_cut(core, seq!['-'] + text::joined(common + a, seq!['.']));
    lemma_suffix_is_cut(core, seq!['-'] + text::joined(common + b, seq!['.']));
    let n = numbers_of(text::split(core, '.'));
    lemma_numbers_less(n, n, n);
}

/// The words that mark a pre-release are made of letters.
proof fn lemma_words_are_letters(w: Seq<char>, i: int)
    requires
        w == "alpha"@ || w == "beta"@ || w == "pre"@ || w == "canary"@ || w == "rc"@,
        0 <= i < w.len(),
    ensures
        'a' <= w[i] <= 'z',
{
    reveal_strlit("alpha");
    reveal_strlit("beta");
    reveal_strlit("pre");
    reveal_strlit("canary");
    reveal_strlit("rc");
    assert(i == 0 || i == 1 || i == 2 || i == 3 || i == 4 || i == 5);
}

/// A version is marked as a pre-release wherever one of the five words stands,
/// in small or capital letters, as a whole piece behind the first hyphen, and
/// nowhere else.
pub proof fn lemma_prerelease_words(
    core: Seq<char>,
    before: Seq<char>,
    word: Seq<char>,
    after: Seq<char>,
)
    requires
        !core.contains('-'),
        before.len() == 0 || before.last() == '-' || before.last() == '.',
        after.len() == 0 || after[0] == '-' || after[0] == '.',
        small_letters(word) == "alpha"@ || small_letters(word) == "beta"@ || small_letters(word)
            == "pre"@ || small_letters(word) == "canary"@ || small_letters(word) == "rc"@,
    ensures
        is_prerelease(core + (seq!['-'] + (before + word + after))),
{
    let pre = before + word + after;
    let v = core + (seq!['-'] + pre);
    assert(v =~= core + seq!['-'] + pre);
    text::lemma_position_of_first(core, '-', pre);
    assert(prerelease_part(v) =~= pre);
    let (lo, hi) = (before.len() as int, (before.len() + word.len()) as int);
    assert(pre.subrange(lo, hi) =~= word);
    reveal_strlit("alpha");
    reveal_strlit("beta");
    reveal_strlit("pre");
    reveal_strlit("canary");
    reveal_strlit("rc");
    assert forall|i: int| lo <= i < hi implies !is_separator(#[trigger] pre[i]) by {
        assert(pre[i] == word[i - lo]);
        lemma_words_are_letters(small_letters(word), i - lo);
    }
    assert(is_piece(pre, lo, hi));
}

/// A version that is marked as a pre-release has one of the five words as a whole
/// piece behind its first hyphen; a version without a hyphen is none.
pub proof fn lemma_prerelease_has_a_word(v: Seq<char>)
    requires
        is_prerelease(v),
    ensures
        exists|core: Seq<char>, before: Seq<char>, word: Seq<char>, after: Seq<char>|
            #![trigger core + (seq!['-'] + (before + word + after))]
            v == core + (seq!['-'] + (before + word + after)) && !core.contains('-') && (
            before.len() == 0 || before.last() == '-' || before.last() == '.') && (after.len() == 0
                || after[0] == '-' || after[0] == '.') && (small_letters(word) == "alpha"@
                || small_letters(word) == "beta"@ || small_letters(word) == "pre"@
                || small_letters(word) == "canary"@ || small_letters(word) == "rc"@),
{
    let h = text::position(v, '-');
    text::lemma_position_is_first(v, '-');
    let pre = prerelease_part(v);
    let (lo, hi) = choose|lo: int, hi: int| #[trigger]
        is_piece(pre, lo, hi) && marks_prerelease(pre.subrange(lo, hi));
    let word = pre.subrange(lo, hi);
    if h >= v.len() {
        reveal_strlit("alpha");
        reveal_strlit("beta");
        reveal_strlit("pre");
        reveal_strlit("canary");
        reveal_strlit("rc");
        assert(small_letters(word).len() == 0);
    }
    let core = v.take(h);
    let (before, after) = (pre.take(lo), pre.skip(hi));
    assert(before + word + after =~= pre);
    assert(v =~= core + (seq!['-'] + (before + word + after)));
}

/// Each ASCII capital letter is made the small one of the same letter, and every
/// other character stays.
pub proof fn lemma_small_letters(s: Seq<char>, i: int)
    requires
        0 <= i < s.len(),
    ensures
        small_letters(s).len() == s.len(),
        'A' <= s[i] <= 'Z' ==> small_letters(s)[i] as u32 == s[i] as u32 + ('a' as u32 - 'A' as u32),
        !('A' <= s[i] <= 'Z') ==> small_letters(s)[i] == s[i],
{
}

/// A sorted list is as long as the list it was made of.
pub proof fn lemma_sorted_len(vs: Seq<Seq<char>>)
    ensures
        sorted_desc(vs).len() == vs.len(),
{
    broadcast use vstd::seq_lib::group_to_multiset_ensures;

    lemma_sorted_desc(vs, seq![]);
    assert(vs.to_multiset().len() == vs.len());
    assert(sorted_desc(vs).to_multiset().len() == sorted_desc(vs).len());
}

/// The comparison for a list turns round with its arguments, and goes by the order
/// of versions.
pub proof fn lemma_comparison_turns_round(
    a: &str,
    b: &str,
    r: std::cmp::Ordering,
    s: std::cmp::Ordering,
    higher: bool,
)
    requires
        call_ensures(semver_desc_cmp, (a, b), r),
        call_ensures(semver_desc_cmp, (b, a), s),
        call_ensures(is_higher, (a, b), higher),
    ensures
        r is Less <==> s is Greater,
        r is Equal <==> s is Equal,
        r is Less <==> higher,
        higher <==> version_higher(a@, b@),
{
}

/// A list that was sorted holds the same versions, each as often as before; no
/// version in it is higher than one before it; and versions of the same rank keep
/// their order.
pub proof fn lemma_sorted_list(vs: &Vec<String>, r: Vec<String>, w: Seq<char>)
    requires
        call_ensures(sort_versions, (vs,), r),
    ensures
        text::texts(r@).to_multiset() == text::texts(vs@).to_multiset(),
        r@.len() == vs@.len(),
        forall|i: int, j: int|
            0 <= i < j < r@.len() ==> !version_higher((#[trigger] r@[j])@, (#[trigger] r@[i])@),
        of_rank(text::texts(r@), w) == of_rank(text::texts(vs@), w),
{
    lemma_sorted_desc(text::texts(vs@), w);
    lemma_sorted_len(text::texts(vs@));
    assert(text::texts(r@).len() == r@.len());
    assert(text::texts(vs@).len() == vs@.len());
    assert forall|i: int, j: int| 0 <= i < j < r@.len() implies !version_higher(
        (#[trigger] r@[j])@,
        (#[trigger] r@[i])@,
    ) by {
        assert(text::texts(r@)[i] == r@[i]@ && text::texts(r@)[j] == r@[j]@);
    }
}

/// What the pre-release mark of a version says.
pub proof fn lemma_marks(v: &str, r: bool)
    requires
        call_ensures(is_prerelease_version, (v,), r),
    ensures
        r <==> is_prerelease(v@),
        !v@.contains('-') ==> !r,
{
    if !v@.contains('-') && r {
        lemma_prerelease_has_a_word(v@);
        let (core, before, word, after) = choose|
            core: Seq<char>,
            before: Seq<char>,
            word: Seq<char>,
            after: Seq<char>,
        |
            #![trigger core + (seq!['-'] + (before + word + after))]
            v@ == core + (seq!['-'] + (before + word + after));
        assert(v@[core.len() as int] == '-');
    }
}

/// A run of digits counts as the number that it spells, zeros before it or not, as
/// long as that fits in 64 bits; one that does not is left out.
pub proof fn lemma_runs_of_digits(s: Seq<char>)
    requires
        text::all_digits(s),
    ensures
        text::digits_value(s) <= 0xffff_ffff_ffff_ffff ==> numbers_of(seq![s]) == seq![
            text::digits_value(s),
        ],
        text::digits_value(s) > 0xffff_ffff_ffff_ffff ==> numbers_of(seq![s]).len() == 0,
{
    text::lemma_spelled_numbers(s, 0);
    assert(seq![s].drop_last() =~= Seq::<Seq<char>>::empty());
    reveal_with_fuel(numbers_of, 2);
    assert(numbers_of(seq![s]) =~= if text::digits_value(s) <= 0xffff_ffff_ffff_ffff {
        seq![text::digits_value(s)]
    } else {
        seq![]
    });
}

/// Every piece of the release number counts by itself, in the order of the pieces.
pub proof fn lemma_pieces_count_by_themselves(pieces: Seq<Seq<char>>, p: Seq<char>, k: int)
    requires
        0 <= k < pieces.len(),
        forall|i: int|
            0 <= i < pieces.len() ==> !(#[trigger] pieces[i]).contains('.')
                && !pieces[i].contains('-') && !pieces[i].contains('+'),
        is_suffix(p),
    ensures
        release_numbers(text::joined(pieces, seq!['.']) + p) == numbers_of(pieces.take(k))
            + numbers_of(seq![pieces[k]]) + numbers_of(pieces.skip(k + 1)),
{
    lemma_joined_without(pieces, '.', '-');
    lemma_joined_without(pieces, '.', '+');
    lemma_suffix_is_cut(text::joined(pieces, seq!['.']), p);
    text::lemma_split_undoes_join(pieces, '.');
    assert(pieces =~= pieces.take(k) + seq![pieces[k]] + pieces.skip(k + 1));
    lemma_numbers_of_parts(pieces.take(k) + seq![pieces[k]], pieces.skip(k + 1));
    lemma_numbers_of_parts(pieces.take(k), seq![pieces[k]]);
}

} // verus!
