use vstd::prelude::*;
use vstd::std_specs::iter::IteratorSpec;
use vstd::string::{StrSliceExecFns, StringExecFns};

verus! {

broadcast use vstd::string::group_string_axioms;

/// A quoted span: its inner text, then sentence-final punctuation kept apart.
pub const QUOTE_PATTERN: &'static str = r#"["“](?P<inner>.*?)(?P<punctuation>[\.\?!])?[”"]"#;

/// A quoted span read out with explicit markers, its punctuation after them.
pub const QUOTE_REPLACEMENT: &'static str = "(quote) $inner (end quote)$punctuation";

/// A bracketed numeric citation such as `[12]` or `[^3]`.
pub const CITATION_PATTERN: &'static str = r#"\[\^?\d+\]"#;

/// A hyphen at the end of a line.
pub const HYPHEN_BREAK_PATTERN: &'static str = r#"-\r?\n"#;

/// The start of the markup envelope, asking for a fast speaking rate.
pub const ENVELOPE_OPEN: &'static str = r#"<speak><prosody rate="x-fast"><p>"#;

/// The end of the markup envelope.
pub const ENVELOPE_CLOSE: &'static str = "</p></prosody></speak>";

/// What `regex` makes of `text` when every match of `pattern` is replaced by
/// `replacement`; `None` where `pattern` is not a valid expression.
pub uninterp spec fn regex_replaced(
    pattern: Seq<char>,
    text: Seq<char>,
    replacement: Seq<char>,
) -> Option<Seq<char>>;

/// Relies on `regex::Regex::new` and `Regex::replace_all`: the pattern is
/// compiled, and each leftmost-first match in `text` is replaced, with `$name`
/// in `replacement` standing for the named group.
#[verifier::external_body]
fn replace_all(pattern: &str, text: &str, replacement: &str) -> (r: Option<String>)
    ensures
        r.deep_view() == regex_replaced(pattern@, text@, replacement@),
{
    match regex::Regex::new(pattern) {
        Ok(re) => Some(re.replace_all(text, replacement).into_owned()),
        Err(_) => None,
    }
}

/// Relies on `String::push`: the character is appended.
#[verifier::external_body]
pub(crate) fn push_char(s: &mut String, c: char)
    ensures
        final(s)@ == old(s)@.push(c),
{
    s.push(c)
}

/// The markup that stands for one character of speakable text.
pub open spec fn escape_char(c: char) -> Seq<char> {
    if c == '"' {
        seq![' ', '(', 'q', 'u', 'o', 't', 'e', ')', ' ']
    } else if c == '&' {
        seq!['&', 'a', 'm', 'p', ';']
    } else if c == '\'' {
        seq!['&', 'a', 'p', 'o', 's', ';']
    } else if c == '<' {
        seq!['&', 'l', 't', ';']
    } else if c == '>' {
        seq!['&', 'g', 't', ';']
    } else {
        seq![c]
    }
}

/// Each character of `s` replaced by its markup.
pub open spec fn escaped(s: Seq<char>) -> Seq<char>
    decreases s.len(),
{
    if s.len() == 0 {
        Seq::empty()
    } else {
        escaped(s.drop_last()) + escape_char(s.last())
    }
}

/// A character that markup reserves, or a double quote.
pub open spec fn reserved(c: char) -> bool {
    c == '"' || c == '\'' || c == '<' || c == '>'
}

/// Escaped text holds no double quote, apostrophe or angle bracket: each was
/// replaced by its spoken marker or entity.
pub proof fn lemma_escaped_has_no_reserved(s: Seq<char>)
    ensures
        forall|i: int| 0 <= i < escaped(s).len() ==> !reserved(#[trigger] escaped(s)[i]),
    decreases s.len(),
{
    if s.len() > 0 {
        lemma_escaped_has_no_reserved(s.drop_last());
        let front = escaped(s.drop_last());
        let tail = escape_char(s.last());
        assert forall|i: int| 0 <= i < escaped(s).len() implies !reserved(
            #[trigger] escaped(s)[i],
        ) by {
            if i >= front.len() {
                assert(escaped(s)[i] == tail[i - front.len()]);
            } else {
                assert(escaped(s)[i] == front[i]);
            }
        }
    }
}

/// Rewrites stray double quotes as a spoken marker and escapes the characters
/// that markup reserves.
pub fn escape(s: &str) -> (r: String)
    ensures
        r@ == escaped(s@),
{
    let mut out = String::new();
    let ghost mut done: Seq<char> = Seq::empty();
    let mut it = s.chars();
    loop
        invariant
            it.obeys_prophetic_iter_laws(),
            done + it.remaining() == s@,
            out@ == escaped(done),
            it.decrease() is Some,
        decreases it.decrease()->0,
    {
        let ghost before = it.remaining();
        match it.next() {
            None => {
                assert(done =~= s@);
                return out;
            }
            Some(c) => {
                proof {
                    assert(before =~= seq![c] + it.remaining());
                    assert(s@ =~= done.push(c) + it.remaining());
                }
                if c == '"' {
                    out.append(" (quote) ");
                } else if c == '&' {
                    out.append("&amp;");
                } else if c == '\'' {
                    out.append("&apos;");
                } else if c == '<' {
                    out.append("&lt;");
                } else if c == '>' {
                    out.append("&gt;");
                } else {
                    push_char(&mut out, c);
                }
                proof {
                    reveal_strlit(" (quote) ");
                    reveal_strlit("&amp;");
                    reveal_strlit("&apos;");
                    reveal_strlit("&lt;");
                    reveal_strlit("&gt;");
                    assert(done.push(c).drop_last() =~= done);
                    done = done.push(c);
                }
            }
        }
    }
}

/// The markup for text whose quotes and citations are already rewritten.
pub open spec fn enveloped(stripped: Seq<char>) -> Seq<char> {
    ENVELOPE_OPEN@ + escaped(stripped) + ENVELOPE_CLOSE@
}

/// The synthesis markup for one paragraph: quoted spans rewritten, citations
/// removed, the rest escaped and wrapped in the envelope.
pub open spec fn normalized(paragraph: Seq<char>) -> Option<Seq<char>> {
    match regex_replaced(QUOTE_PATTERN@, paragraph, QUOTE_REPLACEMENT@) {
        None => None,
        Some(quoted) => match regex_replaced(CITATION_PATTERN@, quoted, Seq::empty()) {
            None => None,
            Some(stripped) => Some(enveloped(stripped)),
        },
    }
}

/// Escapes text whose quotes and citations are already rewritten, and wraps it
/// in the envelope that asks for the speaking rate.
pub fn envelope(stripped: &str) -> (r: String)
    ensures
        r@ == enveloped(stripped@),
{
    let body = escape(stripped);
    let mut out = String::from_str(ENVELOPE_OPEN);
    out.append(body.as_str());
    out.append(ENVELOPE_CLOSE);
    out
}

/// Turns one paragraph into synthesis markup. `None` where a pattern is
/// refused by the expression engine.
pub fn normalize(paragraph: &str) -> (r: Option<String>)
    ensures
        r.deep_view() == normalized(paragraph@),
{
    let quoted = match replace_all(QUOTE_PATTERN, paragraph, QUOTE_REPLACEMENT) {
        Some(q) => q,
        None => return None,
    };
    proof {
        reveal_strlit("");
        assert(""@ =~= Seq::<char>::empty());
    }
    match replace_all(CITATION_PATTERN, quoted.as_str(), "") {
        Some(stripped) => Some(envelope(stripped.as_str())),
        None => None,
    }
}

/// Whether `c` is white space in Unicode's sense (the `White_Space` property).
pub open spec fn white_space(c: char) -> bool {
    ('\u{9}' <= c && c <= '\u{d}') || c == ' ' || c == '\u{85}' || c == '\u{a0}'
        || c == '\u{1680}' || ('\u{2000}' <= c && c <= '\u{200a}') || c == '\u{2028}'
        || c == '\u{2029}' || c == '\u{202f}' || c == '\u{205f}' || c == '\u{3000}'
}

/// Tests a character for Unicode white space.
pub fn is_white_space(c: char) -> (r: bool)
    ensures
        r == white_space(c),
{
    ('\u{9}' <= c && c <= '\u{d}') || c == ' ' || c == '\u{85}' || c == '\u{a0}'
        || c == '\u{1680}' || ('\u{2000}' <= c && c <= '\u{200a}') || c == '\u{2028}'
        || c == '\u{2029}' || c == '\u{202f}' || c == '\u{205f}' || c == '\u{3000}'
}

/// A line with nothing to speak: empty, or white space only.
pub open spec fn blank(line: Seq<char>) -> bool {
    forall|i: int| 0 <= i < line.len() ==> white_space(#[trigger] line[i])
}

/// The pieces of `s` between line feeds, in order; a text without a line
/// feed is one piece, the empty text included.
pub open spec fn split_lines(s: Seq<char>) -> Seq<Seq<char>>
    decreases s.len(),
{
    if s.len() == 0 {
        seq![Seq::empty()]
    } else {
        let front = split_lines(s.drop_last());
        if s.last() == '\n' {
            front.push(Seq::empty())
        } else {
            front.update(front.len() - 1, front.last().push(s.last()))
        }
    }
}

/// The lines that are not blank, in order.
pub open spec fn spoken(lines: Seq<Seq<char>>) -> Seq<Seq<char>>
    decreases lines.len(),
{
    if lines.len() == 0 {
        Seq::empty()
    } else if blank(lines.last()) {
        spoken(lines.drop_last())
    } else {
        spoken(lines.drop_last()).push(lines.last())
    }
}

/// The work items of a text: its lines, in order, without the blank ones.
pub open spec fn work_items(text: Seq<char>) -> Seq<Seq<char>> {
    spoken(split_lines(text))
}

/// Splits a text at its line feeds, keeping every line.
pub fn lines_of(text: &str) -> (r: Vec<String>)
    ensures
        r.deep_view() == split_lines(text@),
{
    let mut items: Vec<String> = Vec::new();
    let mut line = String::new();
    let ghost mut done: Seq<char> = Seq::empty();
    let ghost mut closed: Seq<Seq<char>> = Seq::empty();
    let mut it = text.chars();
    loop
        invariant
            it.obeys_prophetic_iter_laws(),
            it.decrease() is Some,
            done + it.remaining() == text@,
            split_lines(done) == closed.push(line@),
            items.deep_view() == closed,
        decreases it.decrease()->0,
    {
        let ghost before = it.remaining();
        match it.next() {
            None => {
                assert(done =~= text@);
                items.push(line);
                assert(items.deep_view() =~= closed.push(line@));
                return items;
            }
            Some(c) => {
                proof {
                    assert(before =~= seq![c] + it.remaining());
                    assert(text@ =~= done.push(c) + it.remaining());
                    assert(done.push(c).drop_last() =~= done);
                }
                if c == '\n' {
                    let ghost prev = items.deep_view();
                    let ghost last = line@;
                    items.push(line);
                    assert(items.deep_view() =~= prev.push(last));
                    proof {
                        closed = closed.push(last);
                    }
                    line = String::new();
                } else {
                    let ghost old_line = line@;
                    push_char(&mut line, c);
                    assert(closed.push(old_line).update(closed.len() as int, line@) =~= closed.push(line@));
                }
                proof {
                    done = done.push(c);
                }
            }
        }
    }
}

/// Tests whether a text is blank.
pub fn is_blank(text: &str) -> (r: bool)
    ensures
        r == blank(text@),
{
    let mut it = text.chars();
    let ghost mut done: Seq<char> = Seq::empty();
    loop
        invariant
            it.obeys_prophetic_iter_laws(),
            it.decrease() is Some,
            done + it.remaining() == text@,
            blank(done),
        decreases it.decrease()->0,
    {
        let ghost before = it.remaining();
        match it.next() {
            None => {
                assert(done =~= text@);
                return true;
            }
            Some(c) => {
                proof {
                    assert(before =~= seq![c] + it.remaining());
                    assert(text@ =~= done.push(c) + it.remaining());
                }
                if !is_white_space(c) {
                    assert(text@[done.len() as int] == c);
                    return false;
                }
                proof {
                    assert forall|i: int| 0 <= i < done.push(c).len() implies white_space(
                        #[trigger] done.push(c)[i],
                    ) by {
                        if i < done.len() {
                            assert(done.push(c)[i] == done[i]);
                        }
                    }
                    done = done.push(c);
                }
            }
        }
    }
}

/// Splits a text at its line feeds and keeps the lines that are not blank.
pub fn split_work_items(text: &str) -> (r: Vec<String>)
    ensures
        r.deep_view() == work_items(text@),
{
    let lines = lines_of(text);
    let mut items: Vec<String> = Vec::new();
    let mut i: usize = 0;
    while i < lines.len()
        invariant
            0 <= i <= lines.len(),
            lines.deep_view() == split_lines(text@),
            items.deep_view() == spoken(lines.deep_view().take(i as int)),
        decreases lines.len() - i,
    {
        let ghost taken = lines.deep_view().take(i + 1);
        assert(taken.drop_last() =~= lines.deep_view().take(i as int));
        assert(taken.last() == lines[i as int]@);
        if !is_blank(lines[i].as_str()) {
            let ghost prev = items.deep_view();
            items.push(lines[i].clone());
            assert(items.deep_view() =~= prev.push(lines[i as int]@));
        }
        i = i + 1;
    }
    assert(lines.deep_view().take(lines.len() as int) =~= lines.deep_view());
    items
}

/// Whether a character ends a sentence.
pub open spec fn sentence_end(c: char) -> bool {
    c == '.' || c == '?' || c == '!'
}

/// A line without the carriage return that ends it, if it has one.
pub open spec fn without_cr(line: Seq<char>) -> Seq<char> {
    if line.len() > 0 && line.last() == '\r' {
        line.drop_last()
    } else {
        line
    }
}

/// Whether the break after `line` is taken for a wrap in the middle of a
/// sentence and joined to `next`: both lines hold text, and the character
/// right before the break does not end a sentence. Only that one character is
/// looked at, so a sentence that ends in a citation marker (`known.[2]`) is
/// joined too: a known limit of this heuristic.
pub open spec fn joins(line: Seq<char>, next: Seq<char>) -> bool {
    !blank(line) && !blank(next) && without_cr(line).len() > 0 && !sentence_end(
        without_cr(line).last(),
    )
}

/// Line `i` of `lines` as it stands in the repaired text, with what follows
/// it: a space where the break is joined, else the line feed.
pub open spec fn piece(lines: Seq<Seq<char>>, i: int) -> Seq<char> {
    if i + 1 < lines.len() {
        if joins(lines[i], lines[i + 1]) {
            without_cr(lines[i]).push(' ')
        } else {
            lines[i].push('\n')
        }
    } else {
        lines[i]
    }
}

/// The first `n` lines of `lines` put back together.
pub open spec fn rejoined_upto(lines: Seq<Seq<char>>, n: nat) -> Seq<char>
    decreases n,
{
    if n == 0 {
        Seq::empty()
    } else {
        rejoined_upto(lines, (n - 1) as nat) + piece(lines, n - 1)
    }
}

/// A text with each break that looks like a wrap in mid-sentence replaced by
/// one space; every other break, and every character, is kept.
pub open spec fn rejoined(text: Seq<char>) -> Seq<char> {
    rejoined_upto(split_lines(text), split_lines(text).len())
}

/// A document's line structure repaired: hyphenated breaks joined, then
/// breaks in mid-sentence turned into spaces.
pub open spec fn repaired(document: Seq<char>) -> Option<Seq<char>> {
    match regex_replaced(HYPHEN_BREAK_PATTERN@, document, Seq::empty()) {
        None => None,
        Some(joined) => Some(rejoined(joined)),
    }
}

fn strip_cr(line: &str) -> (r: &str)
    ensures
        r@ == without_cr(line@),
{
    let n = line.unicode_len();
    if n > 0 && line.get_char(n - 1) == '\r' {
        line.substring_char(0, n - 1)
    } else {
        line
    }
}

/// Whether the break after `line` is joined to `next`.
pub fn joins_next(line: &str, next: &str) -> (r: bool)
    ensures
        r == joins(line@, next@),
{
    if is_blank(line) || is_blank(next) {
        return false;
    }
    let core = strip_cr(line);
    let n = core.unicode_len();
    if n == 0 {
        return false;
    }
    let c = core.get_char(n - 1);
    !(c == '.' || c == '?' || c == '!')
}

/// Replaces each break that looks like a wrap in mid-sentence by one space.
pub fn join_open_breaks(text: &str) -> (r: String)
    ensures
        r@ == rejoined(text@),
{
    let lines = lines_of(text);
    let ghost ls = split_lines(text@);
    let mut out = String::new();
    let mut i: usize = 0;
    while i < lines.len()
        invariant
            0 <= i <= lines.len(),
            lines.deep_view() == ls,
            ls == split_lines(text@),
            out@ == rejoined_upto(ls, i as nat),
        decreases lines.len() - i,
    {
        assert(lines[i as int]@ == ls[i as int]);
        if i + 1 < lines.len() {
            assert(lines[i + 1]@ == ls[i + 1]);
            if joins_next(lines[i].as_str(), lines[i + 1].as_str()) {
                out.append(strip_cr(lines[i].as_str()));
                push_char(&mut out, ' ');
            } else {
                out.append(lines[i].as_str());
                push_char(&mut out, '\n');
            }
        } else {
            out.append(lines[i].as_str());
        }
        assert(out@ =~= rejoined_upto(ls, (i + 1) as nat));
        i = i + 1;
    }
    out
}

/// Repairs the line structure of a whole document. `None` where the hyphen
/// pattern is refused by the expression engine.
pub fn repair_lines(document: &str) -> (r: Option<String>)
    ensures
        r.deep_view() == repaired(document@),
{
    proof {
        reveal_strlit("");
        assert(""@ =~= Seq::<char>::empty());
    }
    match replace_all(HYPHEN_BREAK_PATTERN, document, "") {
        Some(joined) => Some(join_open_breaks(joined.as_str())),
        None => None,
    }
}

} // verus!
