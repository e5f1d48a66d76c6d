//! Page text for the browser tool: HTML with its tags dropped and its
//! whitespace collapsed.

use vstd::prelude::*;
use crate::text::{chars_of, contains_seq, contains_str, is_whitespace, is_ws, lowercase, string_from_chars};

verus! {

/// The chars outside tags: a `<` opens a tag and the next `>` closes it.
pub open spec fn outside_tags(s: Seq<char>) -> (Seq<char>, bool)
    decreases s.len(),
{
    if s.len() == 0 {
        (Seq::empty(), false)
    } else {
        let (kept, in_tag) = outside_tags(s.drop_last());
        let c = s.last();
        if c == '<' {
            (kept, true)
        } else if in_tag {
            (kept, c != '>')
        } else {
            (kept.push(c), false)
        }
    }
}

/// Runs of whitespace written as one space.
pub open spec fn collapse_ws(s: Seq<char>) -> Seq<char>
    decreases s.len(),
{
    if s.len() == 0 {
        Seq::empty()
    } else {
        let r = collapse_ws(s.drop_last());
        if is_ws(s.last()) {
            if s.len() >= 2 && is_ws(s[s.len() - 2]) {
                r
            } else {
                r.push(' ')
            }
        } else {
            r.push(s.last())
        }
    }
}

/// Whether the page opens a script or style block it never closes (looked
/// for in the lower-cased page); then only the first char of text is kept.
pub open spec fn unclosed_block(lower: Seq<char>) -> bool {
    (contains_seq(lower, "<script"@) && !contains_seq(lower, "</script>"@)) || (contains_seq(lower, "<style"@)
        && !contains_seq(lower, "</style>"@))
}

/// The text of a page, as the browser tool reports it.
pub open spec fn page_text(html: Seq<char>) -> Seq<char> {
    let text = outside_tags(html).0;
    let kept = if unclosed_block(lowercase(html)) && text.len() > 0 {
        text.take(1)
    } else {
        text
    };
    collapse_ws(kept)
}

/// Drops the tags of a page and collapses its whitespace.
pub fn strip_html_tags(html: &str) -> (s: String)
    ensures
        s@ == page_text(html@),
{
    let chars = chars_of(html);
    let lower = crate::text::to_lowercase(html);
    let unclosed = (contains_str(lower.as_str(), "<script") && !contains_str(lower.as_str(), "</script>")) || (
    contains_str(lower.as_str(), "<style") && !contains_str(lower.as_str(), "</style>"));
    let mut text: Vec<char> = Vec::new();
    let mut in_tag = false;
    let mut i: usize = 0;
    while i < chars.len()
        invariant
            chars@ == html@,
            i <= chars@.len(),
            (text@, in_tag) == outside_tags(chars@.take(i as int)),
        decreases chars.len() - i,
    {
        let c = chars[i];
        proof {
            assert(chars@.take(i + 1).drop_last() =~= chars@.take(i as int));
            assert(chars@.take(i + 1).last() == c);
        }
        if c == '<' {
            in_tag = true;
        } else if in_tag {
            if c == '>' {
                in_tag = false;
            }
        } else {
            text.push(c);
        }
        i = i + 1;
    }
    assert(chars@.take(chars@.len() as int) =~= chars@);
    let mut kept: Vec<char> = Vec::new();
    if unclosed && text.len() > 0 {
        kept.push(text[0]);
        assert(kept@ =~= text@.take(1));
    } else {
        kept = text;
    }
    let mut out: Vec<char> = Vec::new();
    let mut j: usize = 0;
    while j < kept.len()
        invariant
            j <= kept@.len(),
            out@ == collapse_ws(kept@.take(j as int)),
        decreases kept.len() - j,
    {
        let c = kept[j];
        proof {
            assert(kept@.take(j + 1).drop_last() =~= kept@.take(j as int));
            assert(kept@.take(j + 1).last() == c);
            if j >= 1 {
                assert(kept@.take(j + 1)[j - 1] == kept@[j - 1]);
            }
        }
        if is_whitespace(c) {
            if !(j >= 1 && is_whitespace(kept[j - 1])) {
                out.push(' ');
            }
        } else {
            out.push(c);
        }
        j = j + 1;
    }
    assert(kept@.take(kept@.len() as int) =~= kept@);
    string_from_chars(&out)
}

} // verus!
