//! Small verified string helpers shared by the converter, the search
//! formatters and the catalogue: equality on `&str`, padding, trailing
//! whitespace removal, newline collapsing and joining with a separator.

use vstd::prelude::*;
use vstd::string::StrSliceExecFns;
use vstd::string::StringExecFns;

verus! {

/// Relies on `String::push`: appends exactly the one character.
#[verifier::external_body]
pub fn push_char(s: &mut String, c: char)
    ensures
        final(s)@ == old(s)@.push(c),
{
    s.push(c);
}

/// Equality of two string slices, decided through their owned copies.
pub fn str_eq(a: &str, b: &str) -> (r: bool)
    ensures
        r == (a@ == b@),
{
    let x = a.to_owned();
    let y = b.to_owned();
    x == y
}

/// A run of `n` spaces.
pub open spec fn spaces(n: int) -> Seq<char> {
    Seq::new(if n < 0 { 0 } else { n as nat }, |i: int| ' ')
}

/// `s` left-justified in a field of `w` characters.
pub open spec fn pad_spec(s: Seq<char>, w: int) -> Seq<char> {
    if s.len() >= w {
        s
    } else {
        s + spaces(w - s.len())
    }
}

/// Left-justifies `s` in a field of `width` characters, as the column
/// layout of tables does.
pub fn pad_to(s: &str, width: usize) -> (r: String)
    ensures
        r@ == pad_spec(s@, width as int),
{
    let mut out = s.to_owned();
    let mut n = s.unicode_len();
    while n < width
        invariant
            s@.len() <= n <= width || (n == s@.len() && n >= width),
            out@ == s@ + spaces(n - s@.len()),
        decreases width - n,
    {
        push_char(&mut out, ' ');
        n = n + 1;
        assert(out@ =~= s@ + spaces(n - s@.len()));
    }
    proof {
        assert(out@ =~= pad_spec(s@, width as int));
    }
    out
}

/// A character the trailing-whitespace trim removes.
pub open spec fn is_ws(c: char) -> bool {
    c == ' ' || c == '\t' || c == '\n' || c == '\r'
}

/// Whether the character at position `i` is trimmable whitespace.
fn ws_at(s: &str, i: usize) -> (r: bool)
    requires
        i < s@.len(),
    ensures
        r == is_ws(s@[i as int]),
{
    let c = s.get_char(i);
    c == ' ' || c == '\t' || c == '\n' || c == '\r'
}

/// `s` with every trailing whitespace character removed.
pub open spec fn trim_end_spec(s: Seq<char>) -> Seq<char>
    decreases s.len(),
{
    if s.len() == 0 {
        s
    } else if is_ws(s.last()) {
        trim_end_spec(s.drop_last())
    } else {
        s
    }
}

proof fn lemma_trim_end_cut(s: Seq<char>, n: int)
    requires
        0 <= n <= s.len(),
        forall|i: int| n <= i < s.len() ==> is_ws(#[trigger] s[i]),
        n > 0 ==> !is_ws(s[n - 1]),
    ensures
        trim_end_spec(s) == s.subrange(0, n),
    decreases s.len(),
{
    if s.len() == 0 {
        assert(s.subrange(0, 0) =~= s);
    } else if n == s.len() {
        assert(!is_ws(s.last()));
        assert(s.subrange(0, n) =~= s);
    } else {
        assert(is_ws(s.last()));
        assert(s.drop_last() =~= s.subrange(0, s.len() - 1));
        lemma_trim_end_cut(s.drop_last(), n);
        assert(s.drop_last().subrange(0, n) =~= s.subrange(0, n));
    }
}

/// Removes trailing whitespace, as table cells are trimmed.
pub fn trim_end(s: &str) -> (r: String)
    ensures
        r@ == trim_end_spec(s@),
{
    let len = s.unicode_len();
    let mut cut: usize = 0;
    let mut i: usize = 0;
    while i < len
        invariant
            0 <= cut <= i <= len,
            len == s@.len(),
            forall|j: int| cut <= j < i ==> is_ws(#[trigger] s@[j]),
            cut > 0 ==> !is_ws(s@[cut - 1]),
        decreases len - i,
    {
        if !ws_at(s, i) {
            cut = i + 1;
        }
        i = i + 1;
    }
    proof {
        lemma_trim_end_cut(s@, cut as int);
    }
    let kept = s.substring_char(0, cut);
    kept.to_owned()
}

/// `s` with every newline replaced by a single space.
pub open spec fn collapse_newlines_spec(s: Seq<char>) -> Seq<char> {
    Seq::new(s.len(), |i: int| if s[i] == '\n' { ' ' } else { s[i] })
}

/// Replaces each newline with a space, keeping every snippet on one line.
pub fn collapse_newlines(s: &str) -> (r: String)
    ensures
        r@ == collapse_newlines_spec(s@),
{
    let len = s.unicode_len();
    let mut out = String::new();
    let mut i: usize = 0;
    while i < len
        invariant
            0 <= i <= len,
            len == s@.len(),
            out@.len() == i,
            forall|j: int| 0 <= j < i ==> out@[j] == collapse_newlines_spec(s@)[j],
        decreases len - i,
    {
        let c = s.get_char(i);
        if c == '\n' {
            push_char(&mut out, ' ');
        } else {
            push_char(&mut out, c);
        }
        i = i + 1;
    }
    proof {
        assert(out@ =~= collapse_newlines_spec(s@));
    }
    out
}

/// What follows the first item in a join: each remaining item preceded by
/// the separator.
pub open spec fn join_tail(items: Seq<Seq<char>>, sep: Seq<char>) -> Seq<char>
    decreases items.len(),
{
    if items.len() == 0 {
        Seq::empty()
    } else {
        sep + items[0] + join_tail(items.subrange(1, items.len() as int), sep)
    }
}

/// The items joined with the separator between neighbours.
pub open spec fn join_with(items: Seq<Seq<char>>, sep: Seq<char>) -> Seq<char> {
    if items.len() == 0 {
        Seq::empty()
    } else {
        items[0] + join_tail(items.subrange(1, items.len() as int), sep)
    }
}

/// Joins the strings with the separator between neighbours.
pub fn join_strings(items: &Vec<String>, sep: &str) -> (r: String)
    ensures
        r@ == join_with(items.deep_view(), sep@),
{
    let ghost all = items.deep_view();
    proof {
        assert(all.len() == items@.len());
        assert(forall|j: int| 0 <= j < all.len() ==> all[j] == #[trigger] items@[j]@);
    }
    let mut out = String::new();
    let mut i: usize = 0;
    while i < items.len()
        invariant
            0 <= i <= items.len(),
            all == items.deep_view(),
            all.len() == items@.len(),
            forall|j: int| 0 <= j < all.len() ==> all[j] == #[trigger] items@[j]@,
            i == 0 ==> out@ == Seq::<char>::empty(),
            i > 0 ==> join_with(all, sep@) == out@ + join_tail(
                all.subrange(i as int, all.len() as int),
                sep@,
            ),
        decreases items.len() - i,
    {
        let ghost pre = out@;
        if i > 0 {
            out.append(sep);
        }
        out.append(items[i].as_str());
        proof {
            let rest = all.subrange(i as int, all.len() as int);
            assert(rest[0] == all[i as int]);
            assert(rest.subrange(1, rest.len() as int) =~= all.subrange(
                i + 1,
                all.len() as int,
            ));
            if i == 0 {
                assert(out@ =~= all[0]);
                if items.len() > 1 {
                    assert(join_with(all, sep@) == all[0] + join_tail(
                        all.subrange(1, all.len() as int),
                        sep@,
                    ));
                }
            } else {
                assert(join_tail(rest, sep@) == sep@ + all[i as int] + join_tail(
                    all.subrange(i + 1, all.len() as int),
                    sep@,
                ));
                assert(out@ =~= pre + sep@ + all[i as int]);
                assert(pre + sep@ + all[i as int] + join_tail(
                    all.subrange(i + 1, all.len() as int),
                    sep@,
                ) =~= pre + (sep@ + all[i as int] + join_tail(
                    all.subrange(i + 1, all.len() as int),
                    sep@,
                )));
            }
        }
        i = i + 1;
    }
    proof {
        if items.len() == 0 {
            assert(out@ =~= join_with(all, sep@));
        } else {
            assert(all.subrange(items.len() as int, all.len() as int) =~= Seq::<
                Seq<char>,
            >::empty());
            assert(join_tail(Seq::<Seq<char>>::empty(), sep@) == Seq::<char>::empty());
            assert(out@ + Seq::<char>::empty() =~= out@);
        }
    }
    out
}

} // verus!
