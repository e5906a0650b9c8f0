//! Small text utilities shared by the chapter and media reports.
use vstd::prelude::*;
use vstd::string::*;

verus! {

/// A run of `n` spaces.
pub open spec fn spaces(n: nat) -> Seq<char> {
    Seq::new(n, |_i: int| ' ')
}

/// `s` left-aligned in a field of `width` characters, the way `{:<width}`
/// lays out a string: spaces fill the field, a longer text is kept whole.
pub open spec fn padded(s: Seq<char>, width: nat) -> Seq<char> {
    if s.len() >= width {
        s
    } else {
        s + spaces((width - s.len()) as nat)
    }
}

/// What `{:?}` writes for a string: the text quoted, with special characters
/// escaped.
pub uninterp spec fn debug_escaped(text: Seq<char>) -> Seq<char>;

/// What `{:?}` writes for an optional string: `None`, or `Some(..)` around the
/// quoted text.
pub open spec fn option_debug(o: Option<Seq<char>>) -> Seq<char> {
    match o {
        Some(t) => "Some("@ + debug_escaped(t) + ")"@,
        None => "None"@,
    }
}

/// The view of an optional owned string.
pub open spec fn opt_text(o: Option<String>) -> Option<Seq<char>> {
    match o {
        Some(s) => Some(s@),
        None => None,
    }
}

/// Formats a string with std's `Debug` for `str`.
/// The contract only names the result (`debug_escaped`): what std writes is a
/// function of the text alone, and its escaping rules are not restated here.
#[verifier::external_body]
fn debug_str(text: &str) -> (res: String)
    ensures
        res@ == debug_escaped(text@),
{
    format!("{:?}", text)
}

/// Character-wise equality of two strings.
pub fn text_eq(a: &str, b: &str) -> (res: bool)
    ensures
        res == (a@ == b@),
{
    let n = a.unicode_len();
    let m = b.unicode_len();
    if n != m {
        return false;
    }
    let mut i: usize = 0;
    while i < n
        invariant
            n == a@.len(),
            m == b@.len(),
            n == m,
            i <= n,
            forall|j: int| 0 <= j < i ==> a@[j] == b@[j],
        decreases n - i,
    {
        if a.get_char(i) != b.get_char(i) {
            return false;
        }
        i = i + 1;
    }
    assert(a@ =~= b@);
    true
}

/// Left-aligns `s` in a field of `width` characters (`format!("{:<width$}", s)`).
pub fn pad_right(s: &str, width: usize) -> (res: String)
    ensures
        res@ == padded(s@, width as nat),
{
    let len = s.unicode_len();
    let mut out = String::from_str(s);
    if len < width {
        let mut k: usize = len;
        proof {
            reveal_strlit(" ");
            assert(spaces(0) =~= Seq::<char>::empty());
            assert(out@ =~= s@ + spaces(0));
        }
        while k < width
            invariant
                len == s@.len(),
                len <= k <= width,
                out@ == s@ + spaces((k - len) as nat),
            decreases width - k,
        {
            out.append(" ");
            proof {
                reveal_strlit(" ");
                assert(s@ + spaces((k + 1 - len) as nat) =~= s@ + spaces((k - len) as nat) + " "@);
            }
            k = k + 1;
        }
    }
    out
}

/// Writes an optional string as `{:?}` does.
pub fn option_debug_text(o: &Option<String>) -> (res: String)
    ensures
        res@ == option_debug(opt_text(*o)),
{
    match o {
        Some(t) => {
            let mut out = String::from_str("Some(");
            let inner = debug_str(t.as_str());
            out.append(inner.as_str());
            out.append(")");
            out
        },
        None => String::from_str("None"),
    }
}

} // verus!
