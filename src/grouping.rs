//! Digit grouping of the integer part of an amount: in threes from the
//! right, or the Indian (Vedic) way, three then twos.
use vstd::prelude::*;
use crate::text::{append_range, chars_of, string_of};

verus! {

/// `d` with `sep` inserted before every group of `k` characters, counting
/// from the right; the leftmost group may be shorter.
pub open spec fn grouped(d: Seq<char>, sep: Seq<char>, k: nat) -> Seq<char>
    decreases d.len(),
{
    if k == 0 || d.len() <= k {
        d
    } else {
        grouped(d.subrange(0, d.len() - k), sep, k) + sep + d.subrange(d.len() - k, d.len() as int)
    }
}

/// Standard grouping: a separator every three digits from the right.
pub open spec fn grouped_standard(d: Seq<char>, sep: Seq<char>) -> Seq<char> {
    grouped(d, sep, 3)
}

/// Vedic grouping: a separator after the last three digits, then every two.
pub open spec fn grouped_vedic(d: Seq<char>, sep: Seq<char>) -> Seq<char> {
    if d.len() <= 3 {
        d
    } else {
        grouped(d.subrange(0, d.len() - 3), sep, 2) + sep + d.subrange(d.len() - 3, d.len() as int)
    }
}

/// The characters of `d[0..end]`, grouped by `k` with `sep`.
fn group_prefix(d: &Vec<char>, end: usize, sep: &Vec<char>, k: usize) -> (r: Vec<char>)
    requires
        end <= d@.len(),
        k > 0,
    ensures
        r@ == grouped(d@.subrange(0, end as int), sep@, k as nat),
{
    let mut acc: Vec<char> = Vec::new();
    let mut e: usize = end;
    while e > k
        invariant
            k > 0,
            e <= end <= d@.len(),
            grouped(d@.subrange(0, end as int), sep@, k as nat) == grouped(
                d@.subrange(0, e as int),
                sep@,
                k as nat,
            ) + acc@,
        decreases e,
    {
        let mut piece: Vec<char> = Vec::new();
        append_range(&mut piece, sep, 0, sep.len());
        append_range(&mut piece, d, e - k, e);
        let alen = acc.len();
        append_range(&mut piece, &acc, 0, alen);
        proof {
            let pre = d@.subrange(0, e as int);
            assert(pre.subrange(0, pre.len() - k) =~= d@.subrange(0, e - k));
            assert(pre.subrange(pre.len() - k, pre.len() as int) =~= d@.subrange(e - k, e as int));
            assert(sep@.subrange(0, sep@.len() as int) =~= sep@);
            assert(acc@.subrange(0, alen as int) =~= acc@);
            assert(grouped(pre, sep@, k as nat) == grouped(d@.subrange(0, e - k), sep@, k as nat)
                + sep@ + d@.subrange(e - k, e as int));
            assert(grouped(d@.subrange(0, e - k), sep@, k as nat) + sep@ + d@.subrange(
                e - k,
                e as int,
            ) + acc@ =~= grouped(d@.subrange(0, e - k), sep@, k as nat) + piece@);
        }
        acc = piece;
        e = e - k;
    }
    let mut r: Vec<char> = Vec::new();
    append_range(&mut r, d, 0, e);
    let alen = acc.len();
    append_range(&mut r, &acc, 0, alen);
    proof {
        assert(acc@.subrange(0, alen as int) =~= acc@);
        assert(Seq::<char>::empty() + d@.subrange(0, e as int) =~= d@.subrange(0, e as int));
    }
    r
}

/// Groups the digits of `dollar` in threes from the right, joined by
/// `separator` (`"1234567"` becomes `"1,234,567"`).
pub fn format_dollar_group(dollar: String, separator: String) -> (r: String)
    ensures
        r@ == grouped_standard(dollar@, separator@),
{
    let d = chars_of(dollar.as_str());
    let sep = chars_of(separator.as_str());
    let g = group_prefix(&d, d.len(), &sep, 3);
    proof {
        assert(d@.subrange(0, d@.len() as int) =~= d@);
    }
    string_of(&g)
}

/// Groups the digits of `dollar` the Vedic way: the last three together, the
/// rest in twos (`"1000000"` becomes `"10,00,000"`).
pub fn format_dollar_vedic(dollar: String, separator: String) -> (r: String)
    ensures
        r@ == grouped_vedic(dollar@, separator@),
{
    let d = chars_of(dollar.as_str());
    let sep = chars_of(separator.as_str());
    let n = d.len();
    if n <= 3 {
        return string_of(&d);
    }
    let mut g = group_prefix(&d, n - 3, &sep, 2);
    append_range(&mut g, &sep, 0, sep.len());
    append_range(&mut g, &d, n - 3, n);
    proof {
        assert(sep@.subrange(0, sep@.len() as int) =~= sep@);
    }
    string_of(&g)
}

/// Groups `dollar` with `separator`, the Vedic way when `use_vedic` holds and
/// in threes otherwise.
pub fn format_dollar(use_vedic: bool, dollar: String, separator: String) -> (r: String)
    ensures
        r@ == (if use_vedic {
            grouped_vedic(dollar@, separator@)
        } else {
            grouped_standard(dollar@, separator@)
        }),
{
    if use_vedic {
        return format_dollar_vedic(dollar, separator);
    }
    format_dollar_group(dollar, separator)
}

} // verus!
