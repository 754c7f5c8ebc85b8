//! Formatting of the package-detail pane.
//!
//! Each detail field is shown as an aligned `key          : value` block;
//! long values are word-wrapped and continuation lines are indented under
//! the value column.  Long names and versions in the result list are cut
//! with a `...` marker.

use vstd::prelude::*;

use crate::parse::line_views;

verus! {

/// What `textwrap::wrap` returns for a text and a width: the lines of the
/// word-wrapped text.
pub uninterp spec fn wrap_of(text: Seq<char>, width: int) -> Seq<Seq<char>>;

/// Relies on textwrap::wrap: word wrapping of `text` into lines of at most
/// `width` display columns, under textwrap's default options; the result
/// depends on the text and the width alone.
#[verifier::external_body]
fn wrap_text(text: &str, width: usize) -> (r: Vec<String>)
    ensures
        line_views(r@) == wrap_of(text@, width as int),
{
    textwrap::wrap(text, width).into_iter().map(|line| line.into_owned()).collect()
}

/// `n` spaces.
pub open spec fn spaces(n: int) -> Seq<char>
    decreases n,
{
    if n <= 0 {
        Seq::empty()
    } else {
        spaces(n - 1).push(' ')
    }
}

/// The key column of a detail line: the key padded with spaces to at least
/// `width` characters, then `: `.
pub open spec fn key_text_spec(key: Seq<char>, width: int) -> Seq<char> {
    key + spaces(width - key.len()) + ": "@
}

/// The lines of one formatted detail field: the first wrapped value line
/// behind the key column, every further one behind matching indentation.
/// A value with no wrapped lines still shows the key column.
pub open spec fn detail_lines_spec(
    key: Seq<char>,
    value: Seq<char>,
    key_width: int,
    total_width: int,
) -> Seq<Seq<char>> {
    let kt = key_text_spec(key, key_width);
    let avail = if total_width > kt.len() {
        total_width - kt.len()
    } else {
        1int
    };
    let wrapped = wrap_of(value, avail);
    if wrapped.len() == 0 {
        seq![kt]
    } else {
        Seq::new(
            wrapped.len(),
            |i: int|
                if i == 0 {
                    kt + wrapped[0]
                } else {
                    spaces(kt.len() as int) + wrapped[i]
                },
        )
    }
}

/// A string of `n` spaces.
fn make_spaces(n: usize) -> (r: String)
    ensures
        r@ == spaces(n as int),
{
    let mut r = String::new();
    let mut i: usize = 0;
    proof {
        assert(r@ =~= spaces(0));
    }
    while i < n
        invariant
            i <= n,
            r@ == spaces(i as int),
        decreases n - i,
    {
        r.append(" ");
        proof {
            reveal_strlit(" ");
            assert(r@ =~= spaces(i as int + 1));
        }
        i = i + 1;
    }
    r
}

/// The key column: the key padded with spaces to at least `width`
/// characters, then `: `.
fn make_key_text(key: &str, width: usize) -> (r: String)
    ensures
        r@ == key_text_spec(key@, width as int),
{
    let klen = key.unicode_len();
    let pad = if width > klen {
        width - klen
    } else {
        0
    };
    let mut r = key.to_owned();
    let padding = make_spaces(pad);
    r.append(padding.as_str());
    r.append(": ");
    proof {
        assert(r@ =~= key_text_spec(key@, width as int));
    }
    r
}

/// Formats one detail field into display lines: the key column, padded to
/// `key_width`, carries the first line of the value wrapped to the
/// remaining width; continuation lines are indented under the value.
pub fn format_detail_lines(key: &str, value: &str, key_width: usize, total_width: usize) -> (r: Vec<
    String,
>)
    ensures
        line_views(r@) == detail_lines_spec(key@, value@, key_width as int, total_width as int),
{
    let kt = make_key_text(key, key_width);
    let kt_len = kt.as_str().unicode_len();
    let avail: usize = if total_width > kt_len {
        total_width - kt_len
    } else {
        1
    };
    let wrapped = wrap_text(value, avail);
    let ghost wv = wrap_of(value@, avail as int);
    let mut r: Vec<String> = Vec::new();
    if wrapped.len() == 0 {
        r.push(kt);
        proof {
            assert(line_views(r@) =~= detail_lines_spec(
                key@,
                value@,
                key_width as int,
                total_width as int,
            ));
        }
        return r;
    }
    let indent = make_spaces(kt_len);
    let mut i: usize = 0;
    while i < wrapped.len()
        invariant
            i <= wrapped@.len(),
            line_views(wrapped@) == wv,
            kt@ == key_text_spec(key@, key_width as int),
            indent@ == spaces(kt@.len() as int),
            r@.len() == i,
            forall|k: int|
                0 <= k < i ==> (#[trigger] r@[k])@ == (if k == 0 {
                    kt@ + wv[0]
                } else {
                    spaces(kt@.len() as int) + wv[k]
                }),
        decreases wrapped@.len() - i,
    {
        proof {
            assert(wrapped@[i as int]@ == wv[i as int]);
        }
        let line = if i == 0 {
            kt.clone().concat(wrapped[i].as_str())
        } else {
            indent.clone().concat(wrapped[i].as_str())
        };
        r.push(line);
        i = i + 1;
    }
    proof {
        let spec = detail_lines_spec(key@, value@, key_width as int, total_width as int);
        assert(spec.len() == wv.len());
        assert(line_views(r@) =~= spec);
    }
    r
}

/// `s` cut to `keep` characters with a `...` marker when it is longer than
/// `max_len`, and unchanged otherwise.
pub open spec fn ellipsize_spec(s: Seq<char>, max_len: int, keep: int) -> Seq<char> {
    if s.len() > max_len {
        s.take(keep) + "..."@
    } else {
        s
    }
}

/// Cuts a display string that is longer than `max_len` down to its first
/// `keep` characters with a `...` marker.
pub fn ellipsize(s: &str, max_len: usize, keep: usize) -> (r: String)
    requires
        keep <= max_len,
    ensures
        r@ == ellipsize_spec(s@, max_len as int, keep as int),
{
    let n = s.unicode_len();
    if n > max_len {
        let mut r = s.substring_char(0, keep).to_owned();
        r.append("...");
        proof {
            assert(s@.subrange(0, keep as int) =~= s@.take(keep as int));
        }
        r
    } else {
        s.to_owned()
    }
}

} // verus!
