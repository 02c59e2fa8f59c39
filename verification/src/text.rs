//! Small verified text helpers: string comparison and decimal formatting.

use vstd::prelude::*;
use vstd::string::StrSliceExecFns;
use vstd::string::StringExecFns;

verus! {

/// Compares two string slices by their character sequences.
pub fn str_eq(a: &str, b: &str) -> (r: bool)
    ensures
        r == (a@ == b@),
{
    let la = a.unicode_len();
    let lb = b.unicode_len();
    if la != lb {
        return false;
    }
    let mut i: usize = 0;
    while i < la
        invariant
            la == a@.len(),
            la == b@.len(),
            i <= la,
            forall|j: int| 0 <= j < i ==> a@[j] == b@[j],
        decreases la - i,
    {
        if a.get_char(i) != b.get_char(i) {
            return false;
        }
        i += 1;
    }
    proof {
        assert(a@ =~= b@);
    }
    true
}

/// The decimal digit character of a value below ten.
pub open spec fn dec_digit(v: int) -> char
    recommends
        0 <= v < 10,
{
    if v == 0 {
        '0'
    } else if v == 1 {
        '1'
    } else if v == 2 {
        '2'
    } else if v == 3 {
        '3'
    } else if v == 4 {
        '4'
    } else if v == 5 {
        '5'
    } else if v == 6 {
        '6'
    } else if v == 7 {
        '7'
    } else if v == 8 {
        '8'
    } else {
        '9'
    }
}

/// The decimal notation of a natural number, most significant digit first.
pub open spec fn dec_str(n: int) -> Seq<char>
    recommends
        n >= 0,
    decreases n,
{
    if n < 10 {
        seq![dec_digit(n)]
    } else {
        dec_str(n / 10).push(dec_digit(n % 10))
    }
}

fn dec_digit_str(v: usize) -> (r: &'static str)
    requires
        v < 10,
    ensures
        r@ =~= seq![dec_digit(v as int)],
{
    proof {
        reveal_strlit("0");
        reveal_strlit("1");
        reveal_strlit("2");
        reveal_strlit("3");
        reveal_strlit("4");
        reveal_strlit("5");
        reveal_strlit("6");
        reveal_strlit("7");
        reveal_strlit("8");
        reveal_strlit("9");
    }
    match v {
        0 => "0",
        1 => "1",
        2 => "2",
        3 => "3",
        4 => "4",
        5 => "5",
        6 => "6",
        7 => "7",
        8 => "8",
        _ => "9",
    }
}

/// Writes a number in decimal notation.
pub fn dec_string(n: usize) -> (r: String)
    ensures
        r@ == dec_str(n as int),
    decreases n,
{
    if n < 10 {
        let mut s = String::new();
        s.append(dec_digit_str(n));
        proof {
            assert(s@ =~= dec_str(n as int));
        }
        s
    } else {
        let mut s = dec_string(n / 10);
        s.append(dec_digit_str(n % 10));
        proof {
            assert(s@ =~= dec_str(n as int));
        }
        s
    }
}

/// A list entry as it is printed: whole when it fits, and cut to
/// `max_len` characters with a trailing ellipsis otherwise.
pub open spec fn elide_item(v: Seq<char>, max_len: int) -> Seq<char> {
    if v.len() > max_len {
        v.take(max_len) + ("\u{2026}")@
    } else {
        v
    }
}

/// The printed entries joined with single spaces.
pub open spec fn join_elided(vs: Seq<Seq<char>>, max_len: int) -> Seq<char>
    decreases vs.len(),
{
    if vs.len() == 0 {
        Seq::empty()
    } else if vs.len() == 1 {
        elide_item(vs[0], max_len)
    } else {
        join_elided(vs.drop_last(), max_len) + seq![' '] + elide_item(vs.last(), max_len)
    }
}

/// What [`elide_vec`] prints: all entries where at most `max_items + 1`
/// exist, and the first `max_items + 1` followed by a count of the rest
/// otherwise.
pub open spec fn elide_spec(vs: Seq<Seq<char>>, max_items: int, max_len: int) -> Seq<char> {
    if vs.len() <= max_items + 1 {
        join_elided(vs, max_len)
    } else {
        join_elided(vs.take(max_items + 1), max_len) + (" and ")@ + dec_str(
            vs.len() - max_items - 1,
        ) + (" more")@
    }
}

/// The character sequences of a list of strings.
pub open spec fn views_of(vs: Seq<String>) -> Seq<Seq<char>> {
    vs.map_values(|s: String| s@)
}

/// Prints a list of strings for a diagnostic, keeping it short: each
/// entry is cut to `max_len` characters (with an ellipsis), at most
/// `max_items + 1` entries appear, and the number of entries left out is
/// summarized as `and N more`.
#[verifier::loop_isolation(false)]
pub fn elide_vec(vec: &[String], max_items: usize, max_len: usize) -> (r: String)
    ensures
        r@ == elide_spec(views_of(vec@), max_items as int, max_len as int),
{
    let mut s = String::new();
    let ghost vs = views_of(vec@);
    let mut i: usize = 0;
    while i < vec.len()
        invariant
            i <= vec@.len(),
            i <= max_items + 1,
            s@ == join_elided(vs.take(i as int), max_len as int),
        decreases vec@.len() - i,
    {
        let ghost ii = i as int;
        if i > max_items {
            s.append(" and ");
            let count = dec_string(vec.len() - i);
            s.append(count.as_str());
            s.append(" more");
            proof {
                assert(s@ =~= elide_spec(vs, max_items as int, max_len as int));
            }
            return s;
        }
        if i > 0 {
            s.append(" ");
            proof {
                reveal_strlit(" ");
            }
        }
        let v = &vec[i];
        if v.unicode_len() > max_len {
            s.append(v.as_str().substring_char(0, max_len));
            s.append("\u{2026}");
        } else {
            s.append(v.as_str());
        }
        proof {
            assert(vs.take(ii + 1).drop_last() =~= vs.take(ii));
            if ii > 0 {
                assert(s@ =~= join_elided(vs.take(ii + 1), max_len as int));
            } else {
                assert(s@ =~= elide_item(vs[0], max_len as int));
            }
        }
        i += 1;
    }
    proof {
        assert(vs.take(vec@.len() as int) =~= vs);
    }
    s
}

} // verus!
