//! Text made safe to stand in HTML.
use vstd::prelude::*;

use crate::text;

verus! {

/// What stands for a character in HTML. An apostrophe is replaced only where it
/// is asked for.
pub open spec fn escaped_char(c: char, apostrophes: bool) -> Seq<char> {
    if c == '&' {
        "&amp;"@
    } else if c == '<' {
        "&lt;"@
    } else if c == '>' {
        "&gt;"@
    } else if c == '"' {
        "&quot;"@
    } else if c == '\'' && apostrophes {
        "&#39;"@
    } else {
        seq![c]
    }
}

/// What stands for a text in HTML.
pub open spec fn escaped(s: Seq<char>, apostrophes: bool) -> Seq<char>
    decreases s.len(),
{
    if s.len() == 0 {
        Seq::empty()
    } else {
        escaped(s.drop_last(), apostrophes) + escaped_char(s.last(), apostrophes)
    }
}

/// Replaces the characters that mean something in HTML.
pub fn escape(text: &str, apostrophes: bool) -> (result: String)
    ensures
        result@ == escaped(text@, apostrophes),
{
    let chars: Vec<char> = text::chars_of(text);
    let mut result = String::new();
    let mut i: usize = 0;
    assert(result@ == escaped(text@.take(0), apostrophes));
    while i < chars.len()
        invariant
            i <= chars@.len(),
            chars@ == text@,
            result@ == escaped(text@.take(i as int), apostrophes),
        decreases chars@.len() - i,
    {
        let c: char = chars[i];
        proof {
            assert(text@.take(i + 1).drop_last() == text@.take(i as int));
            assert(text@.take(i + 1).last() == c);
        }
        if c == '&' {
            result.append("&amp;");
        } else if c == '<' {
            result.append("&lt;");
        } else if c == '>' {
            result.append("&gt;");
        } else if c == '"' {
            result.append("&quot;");
        } else if c == '\'' && apostrophes {
            result.append("&#39;");
        } else {
            let ghost before = result@;
            result.push(c);
            assert(result@ == before + seq![c]);
        }
        i += 1;
    }
    assert(text@.take(text@.len() as int) == text@);
    result
}

/// Whether a character opens or closes something in HTML.
pub open spec fn markup(c: char, apostrophes: bool) -> bool {
    c == '<' || c == '>' || c == '"' || (c == '\'' && apostrophes)
}

/// Escaped text holds nothing that opens or closes a tag or a quoted value.
pub proof fn law_escaped_text_holds_no_markup(s: Seq<char>, apostrophes: bool, i: int)
    requires
        0 <= i < escaped(s, apostrophes).len(),
    ensures
        !markup(escaped(s, apostrophes)[i], apostrophes),
    decreases s.len(),
{
    reveal_strlit("&amp;");
    reveal_strlit("&lt;");
    reveal_strlit("&gt;");
    reveal_strlit("&quot;");
    reveal_strlit("&#39;");
    let before = escaped(s.drop_last(), apostrophes);
    if i < before.len() {
        law_escaped_text_holds_no_markup(s.drop_last(), apostrophes, i);
    }
}

/// What a browser reads, from `at` on, in text with the five references that
/// stand for characters of markup; any other character is itself.
pub open spec fn read_back(s: Seq<char>, at: int) -> Seq<char>
    decreases s.len() - at,
{
    if at < 0 || at >= s.len() {
        Seq::empty()
    } else if text::occurs_at(s, seq!['&', 'a', 'm', 'p', ';'], at) {
        seq!['&'] + read_back(s, at + 5)
    } else if text::occurs_at(s, seq!['&', 'l', 't', ';'], at) {
        seq!['<'] + read_back(s, at + 4)
    } else if text::occurs_at(s, seq!['&', 'g', 't', ';'], at) {
        seq!['>'] + read_back(s, at + 4)
    } else if text::occurs_at(s, seq!['&', 'q', 'u', 'o', 't', ';'], at) {
        seq!['"'] + read_back(s, at + 6)
    } else if text::occurs_at(s, seq!['&', '#', '3', '9', ';'], at) {
        seq!['\''] + read_back(s, at + 5)
    } else {
        seq![s[at]] + read_back(s, at + 1)
    }
}

/// Escaping goes character by character: the escaped form of two texts, one behind
/// the other, is that of the first and then that of the second. A character that
/// means nothing in HTML stands for itself, and each of the others for its
/// reference.
pub proof fn law_escaping_goes_by_characters(
    a: Seq<char>,
    b: Seq<char>,
    c: char,
    apostrophes: bool,
)
    ensures
        escaped(Seq::empty(), apostrophes) == Seq::<char>::empty(),
        escaped(a + b, apostrophes) == escaped(a, apostrophes) + escaped(b, apostrophes),
        c != '&' && c != '<' && c != '>' && c != '"' && c != '\'' ==> escaped(
            seq![c],
            apostrophes,
        ) == seq![c],
        escaped(seq!['&'], apostrophes) == seq!['&', 'a', 'm', 'p', ';'],
        escaped(seq!['<'], apostrophes) == seq!['&', 'l', 't', ';'],
        escaped(seq!['>'], apostrophes) == seq!['&', 'g', 't', ';'],
        escaped(seq!['"'], apostrophes) == seq!['&', 'q', 'u', 'o', 't', ';'],
        escaped(seq!['\''], true) == seq!['&', '#', '3', '9', ';'],
        escaped(seq!['\''], false) == seq!['\''],
    decreases b.len(),
{
    reveal_strlit("&amp;");
    reveal_strlit("&lt;");
    reveal_strlit("&gt;");
    reveal_strlit("&quot;");
    reveal_strlit("&#39;");
    reveal_with_fuel(escaped, 2);
    assert forall|d: char| #[trigger] escaped(seq![d], apostrophes) == escaped_char(
        d,
        apostrophes,
    ) by {
        assert(seq![d].drop_last() == Seq::<char>::empty());
        assert(Seq::<char>::empty() + escaped_char(d, apostrophes) == escaped_char(
            d,
            apostrophes,
        ));
    }
    assert(seq!['\''].drop_last() == Seq::<char>::empty());
    assert(Seq::<char>::empty() + escaped_char('\'', true) == escaped_char('\'', true));
    assert(Seq::<char>::empty() + escaped_char('\'', false) == escaped_char('\'', false));
    assert("&amp;"@ == seq!['&', 'a', 'm', 'p', ';']);
    assert("&lt;"@ == seq!['&', 'l', 't', ';']);
    assert("&gt;"@ == seq!['&', 'g', 't', ';']);
    assert("&quot;"@ == seq!['&', 'q', 'u', 'o', 't', ';']);
    assert("&#39;"@ == seq!['&', '#', '3', '9', ';']);
    if b.len() == 0 {
        assert(a + b == a);
        assert(escaped(a, apostrophes) + Seq::<char>::empty() == escaped(a, apostrophes));
    } else {
        law_escaping_goes_by_characters(a, b.drop_last(), c, apostrophes);
        assert((a + b).drop_last() == a + b.drop_last());
        let last = escaped_char(b.last(), apostrophes);
        assert(escaped(a, apostrophes) + escaped(b.drop_last(), apostrophes) + last == escaped(
            a,
            apostrophes,
        ) + (escaped(b.drop_last(), apostrophes) + last));
    }
}

proof fn lemma_read_shift(before: Seq<char>, rest: Seq<char>, at: int)
    requires
        0 <= at <= rest.len(),
    ensures
        read_back(before + rest, before.len() + at) == read_back(rest, at),
    decreases rest.len() - at,
{
    let s = before + rest;
    let k = before.len() as int;
    if at < rest.len() {
        lemma_occurs_shift(before, rest, seq!['&', 'a', 'm', 'p', ';'], at);
        lemma_occurs_shift(before, rest, seq!['&', 'l', 't', ';'], at);
        lemma_occurs_shift(before, rest, seq!['&', 'g', 't', ';'], at);
        lemma_occurs_shift(before, rest, seq!['&', 'q', 'u', 'o', 't', ';'], at);
        lemma_occurs_shift(before, rest, seq!['&', '#', '3', '9', ';'], at);
        if text::occurs_at(rest, seq!['&', 'a', 'm', 'p', ';'], at) {
            lemma_read_shift(before, rest, at + 5);
        } else if text::occurs_at(rest, seq!['&', 'l', 't', ';'], at) {
            lemma_read_shift(before, rest, at + 4);
        } else if text::occurs_at(rest, seq!['&', 'g', 't', ';'], at) {
            lemma_read_shift(before, rest, at + 4);
        } else if text::occurs_at(rest, seq!['&', 'q', 'u', 'o', 't', ';'], at) {
            lemma_read_shift(before, rest, at + 6);
        } else if text::occurs_at(rest, seq!['&', '#', '3', '9', ';'], at) {
            lemma_read_shift(before, rest, at + 5);
        } else {
            lemma_read_shift(before, rest, at + 1);
        }
    }
}

proof fn lemma_occurs_shift(before: Seq<char>, rest: Seq<char>, part: Seq<char>, at: int)
    requires
        0 <= at,
    ensures
        text::occurs_at(before + rest, part, before.len() + at) == text::occurs_at(rest, part, at),
{
    let s = before + rest;
    let k = before.len() + at;
    if at + part.len() <= rest.len() {
        assert(s.subrange(k, k + part.len()) == rest.subrange(at, at + part.len()));
    }
}

proof fn lemma_no_reference(s: Seq<char>, part: Seq<char>)
    requires
        s.len() > 0,
        part.len() > 0,
        s[0] != part[0],
    ensures
        !text::occurs_at(s, part, 0),
{
    if text::occurs_at(s, part, 0) {
        assert(s.subrange(0, part.len() as int)[0] == part[0]);
    }
}

proof fn lemma_reference(part: Seq<char>, rest: Seq<char>)
    ensures
        text::occurs_at(part + rest, part, 0),
{
    assert((part + rest).subrange(0, part.len() as int) == part);
}

proof fn lemma_other_reference(s: Seq<char>, part: Seq<char>)
    requires
        s.len() > 1,
        part.len() > 1,
        s[1] != part[1],
    ensures
        !text::occurs_at(s, part, 0),
{
    if text::occurs_at(s, part, 0) {
        assert(s.subrange(0, part.len() as int)[1] == part[1]);
    }
}

/// Escaping loses nothing: a browser reads the very text from its escaped form.
pub proof fn law_escaped_text_reads_back(s: Seq<char>, apostrophes: bool)
    ensures
        read_back(escaped(s, apostrophes), 0) == s,
    decreases s.len(),
{
    law_escaping_goes_by_characters(Seq::empty(), Seq::empty(), 'a', apostrophes);
    if s.len() > 0 {
        let c = s[0];
        let tail = s.skip(1);
        law_escaped_text_reads_back(tail, apostrophes);
        assert(s == seq![c] + tail);
        law_escaping_goes_by_characters(seq![c], tail, c, apostrophes);
        let head = escaped(seq![c], apostrophes);
        let rest = escaped(tail, apostrophes);
        let whole = head + rest;
        lemma_read_shift(head, rest, 0);
        let amp = seq!['&', 'a', 'm', 'p', ';'];
        let lt = seq!['&', 'l', 't', ';'];
        let gt = seq!['&', 'g', 't', ';'];
        let quot = seq!['&', 'q', 'u', 'o', 't', ';'];
        let apos = seq!['&', '#', '3', '9', ';'];
        lemma_reference(head, rest);
        if head.len() == 1 {
            assert(whole[0] == c && c != '&');
            lemma_no_reference(whole, amp);
            lemma_no_reference(whole, lt);
            lemma_no_reference(whole, gt);
            lemma_no_reference(whole, quot);
            lemma_no_reference(whole, apos);
        } else {
            assert(whole[1] == head[1]);
            if c != '&' {
                lemma_other_reference(whole, amp);
            }
            if c != '<' {
                lemma_other_reference(whole, lt);
            }
            if c != '>' {
                lemma_other_reference(whole, gt);
            }
            if c != '"' {
                lemma_other_reference(whole, quot);
            }
        }
        assert(read_back(whole, 0) == seq![c] + read_back(whole, head.len() as int));
    } else {
        assert(s == Seq::<char>::empty());
    }
}

} // verus!
