use vstd::prelude::*;

use encoding::all::WINDOWS_1251;
use encoding::{DecoderTrap, Encoding};

use crate::text::{ascii_upper, chars_of};

verus! {

/// What `WINDOWS_1251.decode_to(raw, DecoderTrap::Strict, ..)` of the `encoding` crate
/// writes: the decoded text, up to the first byte that the code page does not define.
pub uninterp spec fn windows_1251_text(raw: Seq<u8>) -> Seq<char>;

/// Decodes `raw` as Windows-1251 text with `encoding`'s `decode_to` and the strict trap,
/// keeping what was decoded when the decoder stops at an undefined byte. The contract
/// claims that the text is `windows_1251_text` of the bytes, and that bytes below 128 all
/// decode to the char of the same code (the single-byte decoder writes them as they are);
/// it says nothing of the rest of the code page's table.
#[verifier::external_body]
fn decode_windows_1251(raw: &[u8]) -> (text: String)
    ensures
        text@ == windows_1251_text(raw@),
        (forall|i: int| 0 <= i < raw@.len() ==> #[trigger] raw@[i] < 128) ==> text@
            == ascii_chars(raw@),
{
    let mut text = String::new();
    let _ = WINDOWS_1251.decode_to(raw, DecoderTrap::Strict, &mut text);
    text
}

/// The chars of the same codes as the bytes.
pub open spec fn ascii_chars(raw: Seq<u8>) -> Seq<char> {
    raw.map_values(|b: u8| b as char)
}

/// Appends `c` to `s` with `String::push`; the contract claims that the chars of `s` gain
/// `c` at the end.
#[verifier::external_body]
fn push_char(s: &mut String, c: char)
    ensures
        final(s)@ == old(s)@.push(c),
{
    s.push(c);
}

/// The pieces of `text` between newlines, as `str::split("\n")` gives them (the last
/// piece follows the last newline, and may be empty).
pub open spec fn split_lines(text: Seq<char>) -> Seq<Seq<char>>
    decreases text.len(),
{
    if text.len() == 0 {
        seq![Seq::empty()]
    } else {
        let lines = split_lines(text.drop_last());
        if text.last() == '\n' {
            lines.push(Seq::empty())
        } else {
            lines.update(lines.len() - 1, lines.last().push(text.last()))
        }
    }
}

/// A line with its ASCII letters upper-cased.
pub open spec fn upper_line(line: Seq<char>) -> Seq<char> {
    line.map_values(|c: char| ascii_upper(c))
}

/// The dictionary entry for a line: a newline and the upper-cased line when the line is
/// ASCII, nothing otherwise.
pub open spec fn entry(line: Seq<char>) -> Seq<char> {
    if vstd::utf8::is_ascii_chars(line) {
        seq!['\n'] + upper_line(line)
    } else {
        Seq::empty()
    }
}

/// The entries of the lines, in order.
pub open spec fn entries(lines: Seq<Seq<char>>) -> Seq<char>
    decreases lines.len(),
{
    if lines.len() == 0 {
        Seq::empty()
    } else {
        entries(lines.drop_last()) + entry(lines.last())
    }
}

/// The dictionary text made of `text`: each ASCII line upper-cased after a newline; the
/// lines that are not ASCII are left out.
pub open spec fn dictionary_text(text: Seq<char>) -> Seq<char> {
    entries(split_lines(text))
}

/// An entry holds only ASCII chars other than lower-case letters.
pub open spec fn is_upper_ascii(s: Seq<char>) -> bool {
    forall|i: int| 0 <= i < s.len() ==> '\0' <= #[trigger] s[i] <= '\u{7f}' && !('a' <= s[i] <= 'z')
}

proof fn lemma_ascii_upper_char(c: char)
    requires
        '\0' <= c <= '\u{7f}',
    ensures
        '\0' <= ascii_upper(c) <= '\u{7f}',
        !('a' <= ascii_upper(c) <= 'z'),
{
    if 'a' <= c && c <= 'z' {
        let u = (c as u32) - 32;
        assert(65 <= u <= 90);
        vstd::utf8::char_u32_cast(ascii_upper(c), u as u32);
    }
}

/// Dictionary text is made of ASCII chars and has no lower-case letter, whatever the
/// text it is made from.
pub proof fn lemma_dictionary_text_is_upper_ascii(text: Seq<char>)
    ensures
        is_upper_ascii(dictionary_text(text)),
{
    lemma_entries_upper_ascii(split_lines(text));
}

proof fn lemma_entries_upper_ascii(lines: Seq<Seq<char>>)
    ensures
        is_upper_ascii(entries(lines)),
    decreases lines.len(),
{
    if lines.len() > 0 {
        lemma_entries_upper_ascii(lines.drop_last());
        let line = lines.last();
        let e = entry(line);
        if vstd::utf8::is_ascii_chars(line) {
            assert forall|i: int| 0 <= i < e.len() implies '\0' <= #[trigger] e[i] <= '\u{7f}' && !('a'
                <= e[i] <= 'z') by {
                if i > 0 {
                    assert(e[i] == ascii_upper(line[i - 1]));
                    assert('\0' <= line[i - 1] <= '\u{7f}');
                    lemma_ascii_upper_char(line[i - 1]);
                }
            }
        }
        let all = entries(lines);
        let front = entries(lines.drop_last());
        assert forall|i: int| 0 <= i < all.len() implies '\0' <= #[trigger] all[i] <= '\u{7f}' && !('a'
            <= all[i] <= 'z') by {
            if i < front.len() {
                assert(all[i] == front[i]);
            } else {
                assert(all[i] == e[i - front.len()]);
            }
        }
    }
}

/// `s` has no newline.
pub open spec fn no_newline(s: Seq<char>) -> bool {
    forall|i: int| 0 <= i < s.len() ==> #[trigger] s[i] != '\n'
}

/// The upper-cased ASCII lines of `lines`, in order: what `entries` writes after each
/// newline.
pub open spec fn kept_lines(lines: Seq<Seq<char>>) -> Seq<Seq<char>>
    decreases lines.len(),
{
    if lines.len() == 0 {
        Seq::empty()
    } else if vstd::utf8::is_ascii_chars(lines.last()) {
        kept_lines(lines.drop_last()).push(upper_line(lines.last()))
    } else {
        kept_lines(lines.drop_last())
    }
}

proof fn lemma_split_lines_no_newline(text: Seq<char>)
    ensures
        forall|k: int| 0 <= k < split_lines(text).len() ==> no_newline(#[trigger] split_lines(text)[k]),
    decreases text.len(),
{
    lemma_split_lines_nonempty(text);
    if text.len() > 0 {
        lemma_split_lines_no_newline(text.drop_last());
        lemma_split_lines_nonempty(text.drop_last());
        let ls = split_lines(text.drop_last());
        if text.last() != '\n' {
            let l = ls.last().push(text.last());
            assert(no_newline(l)) by {
                assert forall|i: int| 0 <= i < l.len() implies #[trigger] l[i] != '\n' by {
                    if i < l.len() - 1 {
                        assert(l[i] == ls.last()[i]);
                        assert(no_newline(ls[ls.len() - 1]));
                    }
                }
            }
        }
    }
}

proof fn lemma_split_after_newline(s: Seq<char>, b: Seq<char>)
    requires
        no_newline(b),
    ensures
        split_lines(s + seq!['\n'] + b) == split_lines(s).push(b),
    decreases b.len(),
{
    let x = s + seq!['\n'] + b;
    if b.len() == 0 {
        assert(x =~= s.push('\n'));
        assert(x.drop_last() =~= s);
        assert(x.last() == '\n');
        assert(b =~= Seq::<char>::empty());
    } else {
        let b2 = b.drop_last();
        assert(no_newline(b2)) by {
            assert forall|i: int| 0 <= i < b2.len() implies #[trigger] b2[i] != '\n' by {
                assert(b2[i] == b[i]);
            }
        }
        lemma_split_after_newline(s, b2);
        assert(x.drop_last() =~= s + seq!['\n'] + b2);
        assert(x.last() == b[b.len() - 1]);
        assert(split_lines(x) =~= split_lines(s).push(b2).update(split_lines(s).len() as int, b2.push(b.last())));
        assert(b2.push(b.last()) =~= b);
        assert(split_lines(x) =~= split_lines(s).push(b));
    }
}

proof fn lemma_upper_line_facts(line: Seq<char>)
    requires
        vstd::utf8::is_ascii_chars(line),
    ensures
        vstd::utf8::is_ascii_chars(upper_line(line)),
        upper_line(upper_line(line)) == upper_line(line),
        no_newline(line) ==> no_newline(upper_line(line)),
{
    let u = upper_line(line);
    assert forall|i: int| 0 <= i < u.len() implies '\0' <= #[trigger] u[i] <= '\u{7f}' && !('a' <= u[i] <= 'z') && (line[i] != '\n' ==> u[i] != '\n') by {
        lemma_ascii_upper_char(line[i]);
        if 'a' <= line[i] && line[i] <= 'z' {
            let v = (line[i] as u32) - 32;
            vstd::utf8::char_u32_cast(ascii_upper(line[i]), v as u32);
        }
    }
    assert(upper_line(u) =~= u);
}

proof fn lemma_split_entries(lines: Seq<Seq<char>>)
    requires
        forall|k: int| 0 <= k < lines.len() ==> no_newline(#[trigger] lines[k]),
    ensures
        split_lines(entries(lines)) == seq![Seq::<char>::empty()] + kept_lines(lines),
    decreases lines.len(),
{
    if lines.len() == 0 {
        assert(entries(lines) =~= Seq::<char>::empty());
        assert(seq![Seq::<char>::empty()] + kept_lines(lines) =~= seq![Seq::<char>::empty()]);
    } else {
        let init = lines.drop_last();
        let last = lines.last();
        assert forall|k: int| 0 <= k < init.len() implies no_newline(#[trigger] init[k]) by {
            assert(init[k] == lines[k]);
        }
        lemma_split_entries(init);
        if vstd::utf8::is_ascii_chars(last) {
            assert(no_newline(lines[lines.len() - 1]));
            lemma_upper_line_facts(last);
            assert(entries(lines) =~= entries(init) + seq!['\n'] + upper_line(last));
            lemma_split_after_newline(entries(init), upper_line(last));
            assert(seq![Seq::<char>::empty()] + kept_lines(lines) =~= (seq![Seq::<char>::empty()]
                + kept_lines(init)).push(upper_line(last)));
        } else {
            assert(entries(lines) =~= entries(init));
        }
    }
}

proof fn lemma_entries_of_kept(lines: Seq<Seq<char>>)
    ensures
        entries(seq![Seq::<char>::empty()] + kept_lines(lines)) == seq!['\n'] + entries(lines),
    decreases lines.len(),
{
    let e = Seq::<char>::empty();
    if lines.len() == 0 {
        assert(seq![e] + kept_lines(lines) =~= seq![e]);
        assert(seq![e].drop_last() =~= Seq::<Seq<char>>::empty());
        assert(upper_line(e) =~= e);
        assert(vstd::utf8::is_ascii_chars(e));
        assert(entry(e) =~= seq!['\n']);
        assert(entries(seq![e].drop_last()) =~= Seq::<char>::empty());
        assert(seq![e].last() == e);
        assert(entries(seq![e]) =~= seq!['\n']);
        assert(seq!['\n'] + entries(lines) =~= seq!['\n']);
    } else {
        let init = lines.drop_last();
        let last = lines.last();
        lemma_entries_of_kept(init);
        if vstd::utf8::is_ascii_chars(last) {
            lemma_upper_line_facts(last);
            let ks = seq![e] + kept_lines(lines);
            assert(ks =~= (seq![e] + kept_lines(init)).push(upper_line(last)));
            assert(ks.drop_last() =~= seq![e] + kept_lines(init));
            assert(entry(upper_line(last)) == entry(last));
            assert(entries(ks) =~= seq!['\n'] + entries(lines));
        } else {
            assert(seq![e] + kept_lines(lines) =~= seq![e] + kept_lines(init));
            assert(entries(lines) =~= entries(init));
        }
    }
}

/// Running the formatting again on dictionary text only puts one more newline in front:
/// the formatting is not idempotent.
pub proof fn lemma_dictionary_text_rerun(text: Seq<char>)
    ensures
        dictionary_text(dictionary_text(text)) == seq!['\n'] + dictionary_text(text),
{
    lemma_split_lines_no_newline(text);
    lemma_split_entries(split_lines(text));
    lemma_entries_of_kept(split_lines(text));
}

/// Dictionary text, written out as bytes, is ASCII, so preprocessing those bytes again (see
/// `preprocess_dictionary`) reads it back and puts one more newline in front.
pub proof fn lemma_preprocess_rerun(text: Seq<char>)
    ensures
        forall|i: int|
            0 <= i < vstd::utf8::encode_utf8(dictionary_text(text)).len() ==> #[trigger] vstd::utf8::encode_utf8(
                dictionary_text(text),
            )[i] < 128,
        dictionary_text(ascii_chars(vstd::utf8::encode_utf8(dictionary_text(text)))) == seq!['\n']
            + dictionary_text(text),
{
    let c = dictionary_text(text);
    lemma_dictionary_text_is_upper_ascii(text);
    assert(vstd::utf8::is_ascii_chars(c));
    vstd::utf8::is_ascii_chars_encode_utf8(c);
    let b = vstd::utf8::encode_utf8(c);
    assert forall|i: int| 0 <= i < b.len() implies #[trigger] b[i] < 128 by {
        assert(c[i] as u8 == b[i]);
        assert((c[i] as u32) < 128);
    }
    assert forall|i: int| 0 <= i < b.len() implies #[trigger] ascii_chars(b)[i] == c[i] by {
        assert(c[i] as u8 == b[i]);
        vstd::utf8::char_u32_cast(c[i], c[i] as u32);
    }
    assert(ascii_chars(b) =~= c);
    lemma_dictionary_text_rerun(text);
}

pub proof fn lemma_split_lines_nonempty(text: Seq<char>)
    ensures
        split_lines(text).len() > 0,
    decreases text.len(),
{
    if text.len() > 0 {
        lemma_split_lines_nonempty(text.drop_last());
    }
}

/// Turns decoded text into dictionary text (see `dictionary_text`).
pub fn format_dictionary(text: &str) -> (out: String)
    ensures
        out@ == dictionary_text(text@),
        is_upper_ascii(out@),
{
    proof {
        lemma_dictionary_text_is_upper_ascii(text@);
    }
    let cs = chars_of(text);
    let mut out = String::new();
    let mut line: Vec<char> = Vec::new();
    let mut line_ascii = true;
    for i in 0..cs.len()
        invariant
            cs@ == text@,
            split_lines(cs@.take(i as int)).len() > 0,
            out@ == entries(split_lines(cs@.take(i as int)).drop_last()),
            line@ == split_lines(cs@.take(i as int)).last(),
            line_ascii == vstd::utf8::is_ascii_chars(line@),
    {
        let ghost prev = cs@.take(i as int);
        let ghost next = cs@.take(i + 1);
        proof {
            assert(next.drop_last() =~= prev);
            lemma_split_lines_nonempty(prev);
        }
        let c = cs[i];
        if c == '\n' {
            proof {
                let ls = split_lines(prev);
                assert(ls =~= ls.drop_last().push(ls.last()));
                assert(split_lines(next).drop_last() =~= ls);
            }
            append_entry(&mut out, &line, line_ascii);
            line = Vec::new();
            line_ascii = true;
        } else {
            let ghost old_line = line@;
            line.push(c);
            if !('\0' <= c && c <= '\u{7f}') {
                line_ascii = false;
            }
            proof {
                let ls = split_lines(prev);
                assert(split_lines(next).drop_last() =~= ls.drop_last());
                assert(line@ == old_line.push(c));
                if line_ascii {
                    assert forall|k: int| 0 <= k < line@.len() implies '\0' <= #[trigger] line@[k]
                        <= '\u{7f}' by {
                        if k < old_line.len() {
                            assert(line@[k] == old_line[k]);
                        }
                    }
                } else {
                    if !('\0' <= c && c <= '\u{7f}') {
                        assert(line@[line@.len() - 1] == c);
                    } else {
                        let k = choose|k: int| 0 <= k < old_line.len() && !('\0' <= #[trigger] old_line[k] <= '\u{7f}');
                        assert(line@[k] == old_line[k]);
                    }
                }
            }
        }
    }
    proof {
        assert(cs@.take(cs@.len() as int) =~= cs@);
        let ls = split_lines(cs@);
        assert(ls =~= ls.drop_last().push(ls.last()));
    }
    append_entry(&mut out, &line, line_ascii);
    out
}

/// Appends the entry of `line` to `out`.
fn append_entry(out: &mut String, line: &Vec<char>, line_ascii: bool)
    requires
        line_ascii == vstd::utf8::is_ascii_chars(line@),
    ensures
        final(out)@ == old(out)@ + entry(line@),
{
    if line_ascii {
        push_char(out, '\n');
        for k in 0..line.len()
            invariant
                line_ascii == vstd::utf8::is_ascii_chars(line@),
                line_ascii,
                out@ == old(out)@ + seq!['\n'] + upper_line(line@.take(k as int)),
        {
            push_char(out, crate::text::to_ascii_upper(line[k]));
            proof {
                assert(upper_line(line@.take(k + 1)) =~= upper_line(line@.take(k as int)).push(
                    ascii_upper(line@[k as int]),
                ));
            }
        }
        proof {
            assert(line@.take(line@.len() as int) =~= line@);
            assert(old(out)@ + seq!['\n'] + upper_line(line@) =~= old(out)@ + entry(line@));
        }
    } else {
        assert(entry(line@) =~= Seq::<char>::empty());
        assert(old(out)@ + entry(line@) =~= old(out)@);
    }
}

/// Turns the raw bytes of a Windows-1251 word list into dictionary text: the bytes are
/// decoded, then formatted by `format_dictionary`.
pub fn preprocess_dictionary(raw: &[u8]) -> (out: String)
    ensures
        out@ == dictionary_text(windows_1251_text(raw@)),
        (forall|i: int| 0 <= i < raw@.len() ==> #[trigger] raw@[i] < 128) ==> out@
            == dictionary_text(ascii_chars(raw@)),
{
    let text = decode_windows_1251(raw);
    format_dictionary(text.as_str())
}

} // verus!
