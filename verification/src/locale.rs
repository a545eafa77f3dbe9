//! The language of the interface, as the settings of dsh state it.
use vstd::prelude::*;

use crate::text;

verus! {

/// Whether `line` starts with a blank or a tab.
pub open spec fn indented(line: Seq<char>) -> bool {
    line.len() > 0 && (line[0] == ' ' || line[0] == '\t')
}

/// Whether `line` holds a top-level key: it is not indented, not blank and no
/// comment.
pub open spec fn is_top_key(line: Seq<char>) -> bool {
    !indented(line) && text::trimmed(line).len() > 0 && text::trimmed(line)[0] != '#'
}

/// Whether the last top-level key above line `i` is `locale:`.
pub open spec fn in_locale_block(ls: Seq<Seq<char>>, i: int) -> bool
    decreases i,
{
    if i <= 0 {
        false
    } else if is_top_key(ls[i - 1]) {
        text::trimmed(ls[i - 1]) == "locale:"@
    } else {
        in_locale_block(ls, i - 1)
    }
}

/// Whether line `i` states the preferred language.
pub open spec fn states_preference(ls: Seq<Seq<char>>, i: int) -> bool {
    &&& indented(ls[i])
    &&& in_locale_block(ls, i)
    &&& text::has_prefix(text::trimmed(ls[i]), "preference:"@)
}

/// The value on a line that starts with `preference:`, without a comment and
/// without quotes.
pub open spec fn preference_value(line: Seq<char>) -> Seq<char> {
    let rest = text::trimmed(line).skip("preference:"@.len() as int);
    text::stripped_of(text::stripped_of(text::trimmed(rest.take(text::position(rest, '#'))), '"'), '\'')
}

/// The language that a value names: `true` for English, `false` for Chinese,
/// none for any other value.
pub open spec fn named_language(value: Seq<char>) -> Option<bool> {
    if text::has_prefix(value, "en"@) {
        Some(true)
    } else if text::has_prefix(value, "zh"@) {
        Some(false)
    } else {
        None
    }
}

/// What the first line at or below line `i` that states a preference says:
/// `true` for English, `false` for Chinese.
pub open spec fn preference_from(ls: Seq<Seq<char>>, i: int) -> Option<bool>
    decreases ls.len() - i,
{
    if i >= ls.len() {
        None
    } else if states_preference(ls, i) {
        named_language(preference_value(ls[i]))
    } else {
        preference_from(ls, i + 1)
    }
}

/// What the settings in `text` say of `locale.preference`: `true` for English,
/// `false` for Chinese.
pub open spec fn locale_preference(text: Seq<char>) -> Option<bool> {
    preference_from(text::lines(text), 0)
}

/// Reads `locale.preference` out of the text of dsh's `settings.yaml`:
/// `Some(true)` for English, `Some(false)` for Chinese, `None` where no line of
/// the top-level block `locale:` states a preference, or the first that does
/// names another language. The block ends at the next top-level key.
pub fn parse_locale_preference(text: &str) -> (r: Option<bool>)
    ensures
        r == locale_preference(text@),
{
    let ls = text::split_lines(&text::to_chars(text));
    let ghost model = text::lines(text@);
    let mut in_locale = false;
    for i in 0..ls.len()
        invariant
            model == text::lines(text@),
            text::views(ls@) == model,
            in_locale == in_locale_block(model, i as int),
            preference_from(model, i as int) == preference_from(model, 0),
    {
        let raw = &ls[i];
        let is_indented = raw.len() > 0 && (raw[0] == ' ' || raw[0] == '\t');
        let line = text::trim(raw);
        assert(model[i as int] == raw@);
        if !is_indented {
            if line.len() > 0 && line[0] != '#' {
                let block = text::to_chars("locale:");
                in_locale = line.len() == block.len() && text::starts_with(&line, "locale:");
                assert(in_locale ==> line@ =~= line@.subrange(0, line@.len() as int));
                assert(text::trimmed(raw@) == "locale:"@ ==> line@.subrange(0, line@.len() as int)
                    =~= line@);
            }
        } else if in_locale {
            if let Some(rest) = text::strip_prefix(&line, "preference:") {
                assert(rest@.skip(0) =~= rest@);
                let end = text::position_from(&rest, '#', 0);
                let bare = text::slice_chars(&rest, 0, end);
                assert(bare@ =~= rest@.take(text::position(rest@, '#')));
                let value = text::strip_char(&text::strip_char(&text::trim(&bare), '"'), '\'');
                return if text::starts_with(&value, "en") {
                    Some(true)
                } else if text::starts_with(&value, "zh") {
                    Some(false)
                } else {
                    None
                };
            }
        }
    }
    None
}

/// Whether the interface is English: the settings say so. Missing settings, and
/// settings without a preference for a known language, mean Chinese.
pub fn read_dsh_locale(settings: Option<&str>) -> (r: bool)
    ensures
        r == (settings is Some && locale_preference(settings->0@) == Some(true)),
{
    match settings {
        Some(text) => match parse_locale_preference(text) {
            Some(english) => english,
            None => false,
        },
        None => false,
    }
}

/// The name of the interface language.
pub fn get_ui_locale(settings: Option<&str>) -> (r: &'static str)
    ensures
        r@ == if settings is Some && locale_preference(settings->0@) == Some(true) {
            "en"@
        } else {
            "zh"@
        },
{
    if read_dsh_locale(settings) {
        "en"
    } else {
        "zh"
    }
}

/// The language of the texts of the shell: read once, and then kept until the
/// shell ends.
pub struct TextLanguage {
    /// Whether it is English, once it was read.
    pub english: Option<bool>,
}

impl TextLanguage {
    /// The language before it was read.
    pub fn new() -> (r: Self)
        ensures
            r.english is None,
    {
        TextLanguage { english: None }
    }

    /// Whether the texts are English: as the settings say at the first reading,
    /// whatever settings are handed in later.
    pub fn is_english(&mut self, settings: Option<&str>) -> (r: bool)
        ensures
            final(self).english == Some(r),
            match old(self).english {
                Some(kept) => r == kept,
                None => r == (settings is Some && locale_preference(settings->0@) == Some(true)),
            },
    {
        let r = match self.english {
            Some(kept) => kept,
            None => read_dsh_locale(settings),
        };
        self.english = Some(r);
        r
    }
}

/// The one of two texts that is in the language of the interface.
pub open spec fn chosen(is_en: bool, en: Seq<char>, zh: Seq<char>) -> Seq<char> {
    if is_en {
        en
    } else {
        zh
    }
}

/// The text in the language of the interface.
pub fn tr<'a>(is_en: bool, en: &'a str, zh: &'a str) -> (r: &'a str)
    ensures
        r@ == chosen(is_en, en@, zh@),
{
    if is_en {
        en
    } else {
        zh
    }
}

// Laws.

/// A line lies in the block `locale:` exactly where a line above it that is not
/// indented holds that key and nothing else, and every line between the two is
/// indented, blank or a comment.
pub proof fn lemma_block_of_a_line(ls: Seq<Seq<char>>, i: int)
    requires
        0 <= i <= ls.len(),
    ensures
        in_locale_block(ls, i) <==> exists|j: int|
            #![trigger ls[j]]
            {
                &&& 0 <= j < i
                &&& ls[j].len() > 0 && ls[j][0] != ' ' && ls[j][0] != '\t'
                &&& text::trimmed(ls[j]) == "locale:"@
                &&& forall|k: int|
                    j < k < i ==> ((#[trigger] ls[k]).len() > 0 && (ls[k][0] == ' ' || ls[k][0]
                        == '\t')) || text::trimmed(ls[k]).len() == 0 || text::trimmed(ls[k])[0]
                        == '#'
            },
    decreases i,
{
    reveal_strlit("locale:");
    if i > 0 {
        lemma_block_of_a_line(ls, i - 1);
        let l = ls[i - 1];
        if text::trimmed(l) == "locale:"@ && !indented(l) {
            assert(text::trimmed(l)[0] == 'l');
            assert(l.len() > 0) by {
                if l.len() == 0 {
                    assert(text::trimmed_start(l) == l);
                    assert(text::trimmed_end(l) == l);
                }
            }
        }
        if is_top_key(l) {
            if text::trimmed(l) == "locale:"@ {
                assert(in_locale_block(ls, i));
            }
        } else if in_locale_block(ls, i - 1) {
            let j = choose|j: int|
                #![trigger ls[j]]
                {
                    &&& 0 <= j < i - 1
                    &&& ls[j].len() > 0 && ls[j][0] != ' ' && ls[j][0] != '\t'
                    &&& text::trimmed(ls[j]) == "locale:"@
                    &&& forall|k: int|
                        j < k < i - 1 ==> ((#[trigger] ls[k]).len() > 0 && (ls[k][0] == ' '
                            || ls[k][0] == '\t')) || text::trimmed(ls[k]).len() == 0
                            || text::trimmed(ls[k])[0] == '#'
                };
            assert(ls[j].len() > 0);
        }
    }
}

/// A line states the preferred language exactly where it is indented, lies in the
/// block `locale:` and starts with `preference:`; the first such line decides, and
/// without one no language is stated.
pub proof fn lemma_first_statement_decides(ls: Seq<Seq<char>>, i: int)
    requires
        0 <= i <= ls.len(),
        forall|k: int| 0 <= k < i ==> !#[trigger] states_preference(ls, k),
    ensures
        i < ls.len() ==> (states_preference(ls, i) <==> ls[i].len() > 0 && (ls[i][0] == ' '
            || ls[i][0] == '\t') && in_locale_block(ls, i) && text::trimmed(ls[i]).len() >= 11
            && text::trimmed(ls[i]).take(11) == "preference:"@),
        i < ls.len() && states_preference(ls, i) ==> preference_from(ls, 0) == named_language(
            preference_value(ls[i]),
        ),
        i == ls.len() ==> preference_from(ls, 0) is None,
{
    reveal_strlit("preference:");
    if i < ls.len() {
        let t = text::trimmed(ls[i]);
        if t.len() >= 11 {
            assert(t.subrange(0, 11) =~= t.take(11));
        }
    }
    lemma_statements_are_passed_over(ls, 0, i);
}

proof fn lemma_statements_are_passed_over(ls: Seq<Seq<char>>, from: int, i: int)
    requires
        0 <= from <= i <= ls.len(),
        forall|k: int| from <= k < i ==> !#[trigger] states_preference(ls, k),
    ensures
        preference_from(ls, from) == preference_from(ls, i),
    decreases i - from,
{
    if from < i {
        assert(!states_preference(ls, from));
        lemma_statements_are_passed_over(ls, from + 1, i);
    }
}

/// A value is English where it starts with `en`, Chinese where it starts with `zh`,
/// and no known language otherwise.
pub proof fn lemma_languages(rest: Seq<char>, other: Seq<char>)
    requires
        other.len() < 2 || !(other[0] == 'e' && other[1] == 'n') && !(other[0] == 'z' && other[1]
            == 'h'),
    ensures
        named_language("en"@ + rest) == Some(true),
        named_language("zh"@ + rest) == Some(false),
        named_language(other) is None,
{
    reveal_strlit("en");
    reveal_strlit("zh");
    assert(("en"@ + rest).subrange(0, 2) =~= "en"@);
    assert(("zh"@ + rest).subrange(0, 2) =~= "zh"@);
    assert("en"@[0] == 'e' && "zh"@[0] == 'z');
    assert(("zh"@ + rest).subrange(0, 2)[0] == 'z');
    if other.len() >= 2 {
        let head = other.subrange(0, 2);
        assert(head[0] == other[0] && head[1] == other[1]);
    }
}

/// The value on a line is what stands behind `preference:`, without the white space
/// and the quotes round it and without a comment.
pub proof fn lemma_value_on_a_line(
    indent: Seq<char>,
    gap: Seq<char>,
    quote: char,
    open: Seq<char>,
    core: Seq<char>,
    close: Seq<char>,
    space: Seq<char>,
    comment: Seq<char>,
    end: Seq<char>,
)
    requires
        forall|i: int| 0 <= i < indent.len() ==> text::is_space(#[trigger] indent[i]),
        forall|i: int| 0 <= i < gap.len() ==> text::is_space(#[trigger] gap[i]),
        forall|i: int| 0 <= i < space.len() ==> text::is_space(#[trigger] space[i]),
        forall|i: int| 0 <= i < end.len() ==> text::is_space(#[trigger] end[i]),
        quote == '"' || quote == '\'',
        forall|i: int| 0 <= i < open.len() ==> #[trigger] open[i] == quote,
        forall|i: int| 0 <= i < close.len() ==> #[trigger] close[i] == quote,
        core.len() > 0,
        !text::is_space(core[0]) && !text::is_space(core.last()),
        core[0] != '"' && core[0] != '\'' && core.last() != '"' && core.last() != '\'',
        !core.contains('#'),
        comment.len() > 0 ==> comment[0] == '#' && !text::is_space(comment.last()),
        comment.len() == 0 ==> space.len() == 0,
    ensures
        preference_value(
            indent + ("preference:"@ + (gap + (open + core + close) + space) + comment) + end,
        ) == core,
{
    reveal_strlit("preference:");
    let word = "preference:"@;
    let quoted = open + core + close;
    let value = gap + quoted + space;
    let body = word + value + comment;
    assert(body[0] == 'p');
    assert(!text::is_space('"') && !text::is_space('\''));
    assert(!text::is_space(quoted[0])) by {
        if open.len() > 0 {
            assert(quoted[0] == open[0]);
        } else {
            assert(quoted[0] == core[0]);
        }
    }
    assert(!text::is_space(quoted.last())) by {
        if close.len() > 0 {
            assert(quoted.last() == close.last());
        } else {
            assert(quoted.last() == core.last());
        }
    }
    assert(!text::is_space(body.last())) by {
        if comment.len() > 0 {
            assert(body.last() == comment.last());
        } else {
            assert(body.last() == quoted.last());
        }
    }
    text::lemma_trimming_takes_the_ends_only(indent, body, end);
    let rest = body.skip(word.len() as int);
    assert(rest =~= value + comment);
    assert(!value.contains('#')) by {
        if value.contains('#') {
            let k = choose|k: int| 0 <= k < value.len() && value[k] == '#';
            assert(!text::is_space('#'));
            if k < gap.len() {
                assert(value[k] == gap[k]);
            } else if k < gap.len() + open.len() {
                assert(value[k] == open[k - gap.len()]);
            } else if k < gap.len() + open.len() + core.len() {
                assert(value[k] == core[k - gap.len() - open.len()]);
                assert(core.contains('#'));
            } else if k < gap.len() + quoted.len() {
                assert(value[k] == close[k - gap.len() - open.len() - core.len()]);
            } else {
                assert(value[k] == space[k - gap.len() - quoted.len()]);
            }
        }
    }
    if comment.len() > 0 {
        text::lemma_position_of_first(value, '#', comment.skip(1));
        assert(rest =~= value + seq!['#'] + comment.skip(1));
    } else {
        text::lemma_position_of_first(value, '#', seq![]);
        assert(rest =~= value);
    }
    assert(rest.take(text::position(rest, '#')) =~= value);
    text::lemma_trimming_takes_the_ends_only(gap, quoted, space);
    let none = Seq::<char>::empty();
    if quote == '"' {
        text::lemma_stripping_takes_the_ends_only(open, core, close, '"');
        text::lemma_stripping_takes_the_ends_only(none, core, none, '\'');
        assert(none + core + none =~= core);
    } else {
        assert(quoted[0] != '"' && quoted.last() != '"') by {
            if open.len() > 0 {
                assert(quoted[0] == open[0]);
            } else {
                assert(quoted[0] == core[0]);
            }
            if close.len() > 0 {
                assert(quoted.last() == close.last());
            } else {
                assert(quoted.last() == core.last());
            }
        }
        text::lemma_stripping_takes_the_ends_only(none, quoted, none, '"');
        assert(none + quoted + none =~= quoted);
        text::lemma_stripping_takes_the_ends_only(open, core, close, '\'');
    }
}

/// The interface is English exactly where there are settings and they state English;
/// its name, and the texts, go by that.
pub proof fn lemma_interface_language(
    settings: Option<&str>,
    english: bool,
    name: &'static str,
    text: &str,
    stated: Option<bool>,
)
    requires
        call_ensures(read_dsh_locale, (settings,), english),
        call_ensures(get_ui_locale, (settings,), name),
        call_ensures(parse_locale_preference, (text,), stated),
        settings is Some ==> settings->0 == text,
    ensures
        english <==> settings is Some && stated == Some(true),
        name@ == if english {
            "en"@
        } else {
            "zh"@
        },
        stated == preference_from(text::lines(text@), 0),
{
}

/// A text is the first of the two where the interface is English, and the second
/// otherwise.
pub proof fn lemma_texts(en: Seq<char>, zh: Seq<char>)
    ensures
        chosen(true, en, zh) == en,
        chosen(false, en, zh) == zh,
{
}

/// The language of the texts stays as it was first read.
pub proof fn lemma_language_stays(
    language: &mut TextLanguage,
    later: &mut TextLanguage,
    settings: Option<&str>,
    others: Option<&str>,
    first: bool,
    second: bool,
)
    requires
        call_ensures(TextLanguage::is_english, (language, settings), first),
        *old(later) == *final(language),
        call_ensures(TextLanguage::is_english, (later, others), second),
    ensures
        second == first,
        old(language).english is None ==> (first <==> settings is Some && locale_preference(
            settings->0@,
        ) == Some(true)),
{
}

} // verus!
