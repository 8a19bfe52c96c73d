//! Text inside HTML and XML.
use vstd::prelude::*;

use crate::text;

verus! {

/// A character as it stands between tags.
pub open spec fn html_char(ch: char) -> Seq<char> {
    if ch == '&' {
        "&amp;"@
    } else if ch == '<' {
        "&lt;"@
    } else if ch == '>' {
        "&gt;"@
    } else {
        seq![ch]
    }
}

/// A character as it stands in an attribute.
pub open spec fn attr_char(ch: char) -> Seq<char> {
    if ch == '"' {
        "&quot;"@
    } else {
        html_char(ch)
    }
}

/// A text as it stands between tags.
pub open spec fn html_text(s: Seq<char>) -> Seq<char>
    decreases s.len(),
{
    if s.len() == 0 {
        Seq::empty()
    } else {
        html_text(s.drop_last()) + html_char(s.last())
    }
}

/// A text as it stands in an attribute.
pub open spec fn attr_text(s: Seq<char>) -> Seq<char>
    decreases s.len(),
{
    if s.len() == 0 {
        Seq::empty()
    } else {
        attr_text(s.drop_last()) + attr_char(s.last())
    }
}

fn write_html_char(output: &mut String, ch: char)
    ensures
        final(output)@ == old(output)@ + html_char(ch),
{
    if ch == '&' {
        output.append("&amp;");
    } else if ch == '<' {
        output.append("&lt;");
    } else if ch == '>' {
        output.append("&gt;");
    } else {
        output.push(ch);
        assert(output@ =~= old(output)@ + html_char(ch));
    }
}

/// A text as it stands between tags.
pub fn escape_html(input: &str) -> (output: String)
    ensures
        output@ == html_text(input@),
{
    let chars: Vec<char> = text::chars_of(input);
    let mut output: String = String::new();
    let mut i: usize = 0;
    while i < chars.len()
        invariant
            i <= chars@.len(),
            output@ == html_text(chars@.take(i as int)),
        decreases chars@.len() - i,
    {
        assert(chars@.take(i + 1).drop_last() == chars@.take(i as int));
        write_html_char(&mut output, chars[i]);
        i = i + 1;
    }
    assert(chars@.take(chars@.len() as int) == chars@);
    output
}

/// A text as it stands in an attribute.
pub fn escape_attr(input: &str) -> (output: String)
    ensures
        output@ == attr_text(input@),
{
    let chars: Vec<char> = text::chars_of(input);
    let mut output: String = String::new();
    let mut i: usize = 0;
    while i < chars.len()
        invariant
            i <= chars@.len(),
            output@ == attr_text(chars@.take(i as int)),
        decreases chars@.len() - i,
    {
        assert(chars@.take(i + 1).drop_last() == chars@.take(i as int));
        if chars[i] == '"' {
            output.append("&quot;");
        } else {
            write_html_char(&mut output, chars[i]);
        }
        i = i + 1;
    }
    assert(chars@.take(chars@.len() as int) == chars@);
    output
}

/// Whether a text opens and closes no tag.
pub open spec fn has_no_tags(s: Seq<char>) -> bool {
    forall|i: int| 0 <= i < s.len() ==> #[trigger] s[i] != '<' && s[i] != '>'
}

/// Whether a text ends no attribute.
pub open spec fn has_no_quote(s: Seq<char>) -> bool {
    forall|i: int| 0 <= i < s.len() ==> #[trigger] s[i] != '"'
}

proof fn lemma_sum_has_no_tags(left: Seq<char>, right: Seq<char>)
    requires
        has_no_tags(left),
        has_no_tags(right),
    ensures
        has_no_tags(left + right),
{
    assert forall|i: int| 0 <= i < (left + right).len() implies #[trigger] (left + right)[i] != '<'
        && (left + right)[i] != '>' by {
        if i < left.len() {
            assert(left[i] != '<' && left[i] != '>');
        } else {
            assert(right[i - left.len()] != '<' && right[i - left.len()] != '>');
        }
    }
}

proof fn lemma_char_has_no_tags(ch: char)
    ensures
        has_no_tags(html_char(ch)),
        has_no_tags(attr_char(ch)),
        has_no_quote(attr_char(ch)),
{
    reveal_strlit("&amp;");
    reveal_strlit("&lt;");
    reveal_strlit("&gt;");
    reveal_strlit("&quot;");
}

/// No text between tags, whatever it holds, can open or close a tag.
pub proof fn lemma_html_text_has_no_tags(s: Seq<char>)
    ensures
        has_no_tags(html_text(s)),
    decreases s.len(),
{
    if s.len() > 0 {
        lemma_html_text_has_no_tags(s.drop_last());
        lemma_char_has_no_tags(s.last());
        lemma_sum_has_no_tags(html_text(s.drop_last()), html_char(s.last()));
    }
}

/// No text in an attribute, whatever it holds, can end the attribute, or open or
/// close a tag.
pub proof fn lemma_attr_text_has_no_quote(s: Seq<char>)
    ensures
        has_no_tags(attr_text(s)),
        has_no_quote(attr_text(s)),
    decreases s.len(),
{
    if s.len() > 0 {
        let left = attr_text(s.drop_last());
        let right = attr_char(s.last());
        lemma_attr_text_has_no_quote(s.drop_last());
        lemma_char_has_no_tags(s.last());
        lemma_sum_has_no_tags(left, right);
        assert forall|i: int| 0 <= i < (left + right).len() implies #[trigger] (left + right)[i]
            != '"' by {
            if i < left.len() {
                assert(left[i] != '"');
            } else {
                assert(right[i - left.len()] != '"');
            }
        }
    }
}

/// Whether all characters of a text stand for themselves in markup.
pub open spec fn is_plain(s: Seq<char>) -> bool {
    forall|i: int|
        0 <= i < s.len() ==> #[trigger] s[i] != '&' && s[i] != '<' && s[i] != '>' && s[i] != '"'
}

/// A text whose characters all stand for themselves is written as it is.
pub proof fn lemma_plain_text_is_kept(s: Seq<char>)
    requires
        is_plain(s),
    ensures
        html_text(s) == s,
        attr_text(s) == s,
    decreases s.len(),
{
    if s.len() > 0 {
        let front = s.drop_last();
        assert(is_plain(front)) by {
            assert forall|i: int| 0 <= i < front.len() implies #[trigger] front[i] != '&'
                && front[i] != '<' && front[i] != '>' && front[i] != '"' by {
                assert(s[i] != '&' && s[i] != '<' && s[i] != '>' && s[i] != '"');
            }
        }
        lemma_plain_text_is_kept(front);
        assert(s[s.len() - 1] != '&');
        assert(html_text(s) =~= s);
        assert(attr_text(s) =~= s);
    }
}

/// What a text in markup says: each of `&amp;`, `&lt;`, `&gt;` and `&quot;` is one
/// character, and any other character is itself.
pub open spec fn read_markup(s: Seq<char>) -> Seq<char>
    decreases s.len(),
{
    if s.len() == 0 {
        Seq::empty()
    } else if text::begins_with(s, seq!['&', 'a', 'm', 'p', ';']) {
        seq!['&'] + read_markup(s.skip(5))
    } else if text::begins_with(s, seq!['&', 'l', 't', ';']) {
        seq!['<'] + read_markup(s.skip(4))
    } else if text::begins_with(s, seq!['&', 'g', 't', ';']) {
        seq!['>'] + read_markup(s.skip(4))
    } else if text::begins_with(s, seq!['&', 'q', 'u', 'o', 't', ';']) {
        seq!['"'] + read_markup(s.skip(6))
    } else {
        seq![s[0]] + read_markup(s.skip(1))
    }
}

proof fn lemma_html_text_from_start(s: Seq<char>)
    requires
        s.len() > 0,
    ensures
        html_text(s) == html_char(s[0]) + html_text(s.skip(1)),
        attr_text(s) == attr_char(s[0]) + attr_text(s.skip(1)),
    decreases s.len(),
{
    let front = s.drop_last();
    if s.len() == 1 {
        assert(front =~= Seq::<char>::empty());
        assert(s.skip(1) =~= Seq::<char>::empty());
        assert(html_text(front) =~= Seq::<char>::empty());
        assert(attr_text(front) =~= Seq::<char>::empty());
        assert(html_text(s) =~= html_char(s[0]) + html_text(s.skip(1)));
        assert(attr_text(s) =~= attr_char(s[0]) + attr_text(s.skip(1)));
    } else {
        lemma_html_text_from_start(front);
        assert(front.skip(1) =~= s.skip(1).drop_last());
        assert(html_text(s) =~= html_char(s[0]) + html_text(s.skip(1)));
        assert(attr_text(s) =~= attr_char(s[0]) + attr_text(s.skip(1)));
    }
}

proof fn lemma_char_reads_back(ch: char, written: Seq<char>, rest: Seq<char>)
    requires
        written == html_char(ch) || written == attr_char(ch),
    ensures
        read_markup(written + rest) == seq![ch] + read_markup(rest),
{
    reveal_strlit("&amp;");
    reveal_strlit("&lt;");
    reveal_strlit("&gt;");
    reveal_strlit("&quot;");
    let whole = written + rest;
    if ch == '&' {
        assert(whole.take(5) =~= seq!['&', 'a', 'm', 'p', ';']);
        assert(whole.skip(5) =~= rest);
    } else if ch == '<' {
        assert(whole[1] == 'l');
        assert(whole.take(5)[1] == 'l' || whole.len() < 5);
        assert(whole.take(4) =~= seq!['&', 'l', 't', ';']);
        assert(whole.skip(4) =~= rest);
        assert(!text::begins_with(whole, seq!['&', 'a', 'm', 'p', ';'])) by {
            if whole.len() >= 5 {
                assert(whole.take(5)[1] == whole[1]);
            }
        }
    } else if ch == '>' {
        assert(whole[1] == 'g');
        assert(whole.take(4) =~= seq!['&', 'g', 't', ';']);
        assert(whole.skip(4) =~= rest);
        assert(!text::begins_with(whole, seq!['&', 'a', 'm', 'p', ';'])) by {
            if whole.len() >= 5 {
                assert(whole.take(5)[1] == whole[1]);
            }
        }
        assert(!text::begins_with(whole, seq!['&', 'l', 't', ';'])) by {
            assert(whole.take(4)[1] == whole[1]);
        }
    } else if written.len() == 1 {
        assert(whole[0] == ch);
        assert(whole.skip(1) =~= rest);
        assert(!text::begins_with(whole, seq!['&', 'a', 'm', 'p', ';'])) by {
            if whole.len() >= 5 {
                assert(whole.take(5)[0] == whole[0]);
            }
        }
        assert(!text::begins_with(whole, seq!['&', 'l', 't', ';'])) by {
            if whole.len() >= 4 {
                assert(whole.take(4)[0] == whole[0]);
            }
        }
        assert(!text::begins_with(whole, seq!['&', 'g', 't', ';'])) by {
            if whole.len() >= 4 {
                assert(whole.take(4)[0] == whole[0]);
            }
        }
        assert(!text::begins_with(whole, seq!['&', 'q', 'u', 'o', 't', ';'])) by {
            if whole.len() >= 6 {
                assert(whole.take(6)[0] == whole[0]);
            }
        }
    } else {
        assert(whole[1] == 'q');
        assert(whole.take(6) =~= seq!['&', 'q', 'u', 'o', 't', ';']);
        assert(whole.skip(6) =~= rest);
        assert(whole.take(5)[1] == whole[1]);
        assert(whole.take(4)[1] == whole[1]);
    }
}

/// Whatever a text holds, it is read from markup as it was written, between tags
/// and in attributes; so different texts stand differently in both.
pub proof fn lemma_markup_reads_back(s: Seq<char>)
    ensures
        read_markup(html_text(s)) == s,
        read_markup(attr_text(s)) == s,
    decreases s.len(),
{
    if s.len() > 0 {
        let rest = s.skip(1);
        lemma_html_text_from_start(s);
        lemma_markup_reads_back(rest);
        lemma_char_reads_back(s[0], html_char(s[0]), html_text(rest));
        lemma_char_reads_back(s[0], attr_char(s[0]), attr_text(rest));
        assert(s =~= seq![s[0]] + rest);
    }
}

} // verus!
