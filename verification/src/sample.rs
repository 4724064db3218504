//! The sample workspace's library items: a greeting, the value that its
//! build script exports, and the expansion of its `HelloMacro` derive.
use vstd::prelude::*;

use crate::text::{append, chars_of, string_from_range, to_owned, vec_views};

verus! {

/// A greeting message.
#[derive(Debug)]
pub struct Greeting {
    pub message: String,
}

impl Greeting {
    /// The greeting `Hello, {name}!`.
    pub fn new(name: &str) -> (r: Self)
        ensures
            r.message@ == "Hello, "@ + name@ + "!"@,
    {
        let mut message = to_owned("Hello, ");
        append(&mut message, name);
        append(&mut message, "!");
        Greeting { message }
    }
}

/// Returns the value that the sample build script exports.
pub fn generated_value() -> (r: &'static str)
    ensures
        r@ == "built-by-unit2nix"@,
{
    "built-by-unit2nix"
}

// ---------------------------------------------------------------------------
// The `HelloMacro` derive
// ---------------------------------------------------------------------------

/// Whether `c` has the Unicode `White_Space` property, which is what
/// `char::is_whitespace` tests.
pub open spec fn is_whitespace_char(c: char) -> bool {
    let n = c as u32;
    ||| 0x09 <= n <= 0x0d
    ||| n == 0x20 || n == 0x85 || n == 0xa0 || n == 0x1680
    ||| 0x2000 <= n <= 0x200a
    ||| n == 0x2028 || n == 0x2029 || n == 0x202f || n == 0x205f || n == 0x3000
}

/// Whether `char::is_alphanumeric` holds of `c` (Unicode `Alphabetic` or `Numeric`).
pub uninterp spec fn is_alphanumeric_char(c: char) -> bool;

/// Whether `c` is whitespace.
fn char_is_whitespace(c: char) -> (r: bool)
    ensures
        r == is_whitespace_char(c),
{
    let n = c as u32;
    (0x09 <= n && n <= 0x0d) || n == 0x20 || n == 0x85 || n == 0xa0 || n == 0x1680 || (0x2000 <= n && n
        <= 0x200a) || n == 0x2028 || n == 0x2029 || n == 0x202f || n == 0x205f || n == 0x3000
}

/// Calls `char::is_alphanumeric`; claims its answer is [`is_alphanumeric_char`] of `c`.
#[verifier::external_body]
fn char_is_alphanumeric(c: char) -> (r: bool)
    ensures
        r == is_alphanumeric_char(c),
{
    c.is_alphanumeric()
}

/// The whitespace-separated words of `s`, as `str::split_whitespace` yields them.
pub open spec fn words(s: Seq<char>) -> Seq<Seq<char>>
    decreases s.len(),
{
    if s.len() == 0 {
        Seq::empty()
    } else {
        let prev = words(s.drop_last());
        let c = s.last();
        if is_whitespace_char(c) {
            prev
        } else if s.len() >= 2 && !is_whitespace_char(s[s.len() - 2]) {
            prev.drop_last().push(prev.last().push(c))
        } else {
            prev.push(seq![c])
        }
    }
}

/// A character that a type name keeps at its ends: alphanumeric or `_`.
pub open spec fn name_char(c: char) -> bool {
    is_alphanumeric_char(c) || c == '_'
}

/// `w` without its leading characters that are not [`name_char`]s.
pub open spec fn trim_start_name(w: Seq<char>) -> Seq<char>
    decreases w.len(),
{
    if w.len() > 0 && !name_char(w[0]) {
        trim_start_name(w.drop_first())
    } else {
        w
    }
}

/// `w` without its trailing characters that are not [`name_char`]s.
pub open spec fn trim_end_name(w: Seq<char>) -> Seq<char>
    decreases w.len(),
{
    if w.len() > 0 && !name_char(w.last()) {
        trim_end_name(w.drop_last())
    } else {
        w
    }
}

/// The position of the first `struct` or `enum` word.
pub open spec fn first_item_keyword(ws: Seq<Seq<char>>) -> Option<int>
    decreases ws.len(),
{
    if ws.len() == 0 {
        None
    } else {
        let prev = first_item_keyword(ws.drop_last());
        if prev is Some {
            prev
        } else if ws.last() == "struct"@ || ws.last() == "enum"@ {
            Some(ws.len() - 1)
        } else {
            None
        }
    }
}

/// The name of the type that a derive input declares: the word after the
/// first `struct` or `enum`, without surrounding punctuation; `Unknown` when
/// there is none.
pub open spec fn derive_target_name(input: Seq<char>) -> Seq<char> {
    let ws = words(input);
    match first_item_keyword(ws) {
        Some(i) => if i + 1 < ws.len() {
            trim_end_name(trim_start_name(ws[i + 1]))
        } else {
            "Unknown"@
        },
        None => "Unknown"@,
    }
}

/// The code that the derive generates for type `name`: an inherent `hello()`
/// returning `Hello from {name}!`.
pub open spec fn hello_expansion(name: Seq<char>) -> Seq<char> {
    "\n        impl "@ + name + " {\n            pub fn hello() -> &'static str {\n                concat!(\"Hello from \", \""@
        + name + "\", \"!\")\n            }\n        }\n        "@
}

/// The words of `v`.
fn split_words(v: &Vec<char>) -> (r: Vec<Vec<char>>)
    ensures
        vec_views(r@) == words(v@),
{
    let mut r: Vec<Vec<char>> = Vec::new();
    let mut i: usize = 0;
    proof {
        assert(v@.take(0) =~= Seq::<char>::empty());
    }
    while i < v.len()
        invariant
            i <= v.len(),
            vec_views(r@) == words(v@.take(i as int)),
            i > 0 && !is_whitespace_char(v@[i - 1]) ==> r@.len() > 0,
        decreases v.len() - i,
    {
        let c = v[i];
        let ghost t = v@.take(i + 1);
        proof {
            assert(t.drop_last() =~= v@.take(i as int));
            assert(t.last() == c);
            if i > 0 {
                assert(t[t.len() - 2] == v@[i - 1]);
            }
        }
        let ghost before = vec_views(r@);
        if char_is_whitespace(c) {
        } else if i > 0 && !char_is_whitespace(v[i - 1]) {
            let mut last = r.pop().unwrap();
            proof {
                assert(before.last() == last@);
                assert(vec_views(r@) =~= before.drop_last());
            }
            last.push(c);
            r.push(last);
            proof {
                assert(vec_views(r@) =~= before.drop_last().push(before.last().push(c)));
            }
        } else {
            let mut w: Vec<char> = Vec::new();
            w.push(c);
            r.push(w);
            proof {
                assert(w@ =~= seq![c]);
                assert(vec_views(r@) =~= before.push(seq![c]));
            }
        }
        i = i + 1;
    }
    proof {
        assert(v@.take(i as int) =~= v@);
    }
    r
}

/// The name of the type that a derive input declares.
pub fn derive_name(input: &str) -> (r: String)
    ensures
        r@ == derive_target_name(input@),
{
    let v = chars_of(input);
    let ws = split_words(&v);
    let ghost wv = vec_views(ws@);
    let mut i: usize = 0;
    while i < ws.len()
        invariant
            i <= ws.len(),
            wv == vec_views(ws@),
            wv == words(input@),
            first_item_keyword(wv.take(i as int)) is None,
        decreases ws.len() - i,
    {
        let w = &ws[i];
        proof {
            assert(wv.take(i + 1).drop_last() =~= wv.take(i as int));
            assert(wv.take(i + 1).last() == w@);
        }
        let is_struct = crate::text::chars_eq(w, &chars_of("struct"));
        let is_enum = crate::text::chars_eq(w, &chars_of("enum"));
        if is_struct || is_enum {
            proof {
                assert(first_item_keyword(wv.take(i + 1)) == Some(i as int));
                lemma_first_item_keyword_prefix(wv, i as int);
            }
            if i + 1 < ws.len() {
                return trim_name(&ws[i + 1]);
            }
            return to_owned("Unknown");
        }
        i = i + 1;
    }
    proof {
        assert(wv.take(i as int) =~= wv);
    }
    to_owned("Unknown")
}

/// A keyword found in a prefix is the first one of the whole sequence.
proof fn lemma_first_item_keyword_prefix(ws: Seq<Seq<char>>, i: int)
    requires
        0 <= i < ws.len(),
        first_item_keyword(ws.take(i + 1)) == Some(i),
    ensures
        first_item_keyword(ws) == Some(i),
    decreases ws.len(),
{
    if ws.len() > i + 1 {
        assert(ws.drop_last().take(i + 1) =~= ws.take(i + 1));
        lemma_first_item_keyword_prefix(ws.drop_last(), i);
    } else {
        assert(ws.take(i + 1) =~= ws);
    }
}

/// `w` without the characters at its ends that are not [`name_char`]s.
fn trim_name(w: &Vec<char>) -> (r: String)
    ensures
        r@ == trim_end_name(trim_start_name(w@)),
{
    let mut lo: usize = 0;
    proof {
        assert(w@.skip(0) =~= w@);
    }
    while lo < w.len() && !(char_is_alphanumeric(w[lo]) || w[lo] == '_')
        invariant
            lo <= w.len(),
            trim_start_name(w@) == trim_start_name(w@.skip(lo as int)),
        decreases w.len() - lo,
    {
        proof {
            assert(w@.skip(lo as int)[0] == w@[lo as int]);
            assert(w@.skip(lo as int).drop_first() =~= w@.skip(lo + 1));
        }
        lo = lo + 1;
    }
    proof {
        if lo < w.len() {
            assert(w@.skip(lo as int)[0] == w@[lo as int]);
        }
        assert(trim_start_name(w@) == w@.skip(lo as int));
    }
    let mut hi: usize = w.len();
    proof {
        assert(w@.subrange(lo as int, hi as int) =~= w@.skip(lo as int));
    }
    while hi > lo && !(char_is_alphanumeric(w[hi - 1]) || w[hi - 1] == '_')
        invariant
            lo <= hi <= w.len(),
            trim_end_name(w@.skip(lo as int)) == trim_end_name(w@.subrange(lo as int, hi as int)),
        decreases hi - lo,
    {
        proof {
            let s = w@.subrange(lo as int, hi as int);
            assert(s.last() == w@[hi - 1]);
            assert(s.drop_last() =~= w@.subrange(lo as int, hi - 1));
        }
        hi = hi - 1;
    }
    proof {
        let s = w@.subrange(lo as int, hi as int);
        if hi > lo {
            assert(s.last() == w@[hi - 1]);
        }
        assert(trim_end_name(s) == s);
    }
    string_from_range(w, lo, hi)
}

/// The code that the `HelloMacro` derive generates for the type that
/// `input`, the derive input's source text, declares.
pub fn hello_macro_expansion(input: &str) -> (r: String)
    ensures
        r@ == hello_expansion(derive_target_name(input@)),
{
    let name = derive_name(input);
    let mut r = to_owned("\n        impl ");
    append(&mut r, name.as_str());
    append(&mut r, " {\n            pub fn hello() -> &'static str {\n                concat!(\"Hello from \", \"");
    append(&mut r, name.as_str());
    append(&mut r, "\", \"!\")\n            }\n        }\n        ");
    proof {
        assert(r@ =~= hello_expansion(derive_target_name(input@)));
    }
    r
}

} // verus!
