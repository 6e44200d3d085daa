//! Shared helper types: source positions, position-annotated wrappers,
//! literal constants, and list formatting.

use vstd::prelude::*;
use vstd::string::*;

verus! {

/// A character position in the source text (1-based; 0 means unknown).
#[derive(Debug, Clone, Copy, PartialEq, Eq, Structural)]
pub struct Position {
    pub pos: usize,
}

/// A value of any kind annotated with the source position it came from.
#[derive(Debug, Clone, PartialEq)]
pub struct WithPos<T> {
    pub item: T,
    pub position: Position,
}

impl<T> WithPos<T> {
    pub fn pos(&self) -> (p: Position)
        ensures
            p == self.position,
    {
        self.position
    }

    pub fn unwrap_pos(&self) -> (r: &T)
        ensures
            *r == self.item,
    {
        &self.item
    }
}

/// A literal constant appearing in the source program. Only one 32-bit
/// signed integer type exists at this stage.
#[derive(Debug, Clone, Copy, PartialEq, Eq, Structural)]
pub enum Const {
    I32(i32),
}

impl Const {
    pub fn get_type(&self) -> (t: crate::ast::Type)
        ensures
            t == crate::ast::Type::I32,
    {
        crate::ast::Type::I32
    }
}

/// Character-for-character equality of two string slices.
pub fn str_eq(a: &str, b: &str) -> (r: bool)
    ensures
        r == (a@ == b@),
{
    let alen = a.unicode_len();
    let blen = b.unicode_len();
    if alen != blen {
        return false;
    }
    let mut i: usize = 0;
    while i < alen
        invariant
            alen == a@.len(),
            alen == b@.len(),
            i <= alen,
            forall|j: int| 0 <= j < i ==> a@[j] == b@[j],
        decreases alen - i,
    {
        let ca = a.get_char(i);
        let cb = b.get_char(i);
        if ca != cb {
            assert(a@[i as int] != b@[i as int]);
            return false;
        }
        i = i + 1;
    }
    proof {
        assert(a@ =~= b@);
    }
    true
}

/// The views of a sequence of strings.
pub open spec fn views_of(items: Seq<String>) -> Seq<Seq<char>> {
    items.map_values(|s: String| s@)
}

/// The strings of `items` joined with a comma and a space between
/// consecutive entries.
pub open spec fn comma_list(items: Seq<Seq<char>>) -> Seq<char>
    decreases items.len(),
{
    if items.len() == 0 {
        Seq::<char>::empty()
    } else if items.len() == 1 {
        items[0]
    } else {
        comma_list(items.drop_last()) + seq![',', ' '] + items.last()
    }
}

/// Formats the given strings as a comma separated list.
pub fn format_list(items: &Vec<String>) -> (r: String)
    ensures
        r@ == comma_list(views_of(items@)),
{
    let ghost strs = views_of(items@);
    let mut r = String::new();
    let mut i: usize = 0;
    while i < items.len()
        invariant
            strs == views_of(items@),
            i <= items@.len(),
            r@ == comma_list(strs.take(i as int)),
        decreases items@.len() - i,
    {
        proof {
            reveal_strlit(", ");
            assert(strs.take(i + 1).drop_last() =~= strs.take(i as int));
            assert(strs.take(i + 1).last() == strs[i as int]);
            if i == 0 {
                assert(comma_list(strs.take(1)) == strs[0]);
            }
        }
        if i > 0 {
            r.append(", ");
        }
        r.append(items[i].as_str());
        i = i + 1;
    }
    proof {
        assert(strs.take(items@.len() as int) =~= strs);
    }
    r
}

/// The characters of a string slice, in order.
pub fn str_chars(s: &str) -> (r: Vec<char>)
    ensures
        r@ == s@,
{
    let n = s.unicode_len();
    let mut r: Vec<char> = Vec::new();
    let mut i: usize = 0;
    while i < n
        invariant
            n == s@.len(),
            i <= n,
            r@ == s@.take(i as int),
        decreases n - i,
    {
        let c = s.get_char(i);
        r.push(c);
        proof {
            assert(r@ =~= s@.take(i + 1));
        }
        i = i + 1;
    }
    proof {
        assert(s@.take(n as int) =~= s@);
    }
    r
}


/// Relies on String::push: appends exactly the one given character.
#[verifier::external_body]
pub fn push_char(s: &mut String, c: char)
    ensures
        final(s)@ == old(s)@.push(c),
{
    s.push(c)
}

/// The decimal digits of a non-negative number, most significant
/// first.
pub open spec fn dec_digits(n: nat) -> Seq<char>
    decreases n,
{
    if n < 10 {
        seq![(48 + n) as char]
    } else {
        dec_digits(n / 10).push((48 + n % 10) as char)
    }
}

/// The decimal spelling of an integer, with a leading minus sign when
/// negative.
pub open spec fn dec_str(n: int) -> Seq<char> {
    if n < 0 {
        seq!['-'] + dec_digits((-n) as nat)
    } else {
        dec_digits(n as nat)
    }
}

/// The decimal spelling of an unsigned number.
pub fn u32_to_string(x: u32) -> (r: String)
    ensures
        r@ == dec_digits(x as nat),
{
    let mut digits: Vec<char> = Vec::new();
    let mut v: u32 = x;
    if v == 0 {
        let mut r = String::new();
        push_char(&mut r, '0');
        proof {
            assert(r@ =~= dec_digits(0));
        }
        return r;
    }
    while v > 0
        invariant
            dec_digits(x as nat) =~= (if v > 0 {
                dec_digits(v as nat)
            } else {
                Seq::<char>::empty()
            }) + digits@.reverse(),
        decreases v,
    {
        let d = ((48 + v % 10) as u8) as char;
        let ghost pre = digits@;
        digits.push(d);
        v = v / 10;
        proof {
            assert(digits@.reverse() =~= seq![d] + pre.reverse());
            assert(dec_digits(x as nat) =~= (if v > 0 {
                dec_digits(v as nat)
            } else {
                Seq::<char>::empty()
            }) + digits@.reverse());
        }
    }
    let mut r = String::new();
    let n = digits.len();
    let mut k: usize = 0;
    while k < n
        invariant
            n == digits@.len(),
            k <= n,
            r@ == digits@.reverse().take(k as int),
        decreases n - k,
    {
        push_char(&mut r, digits[n - 1 - k]);
        proof {
            assert(r@ =~= digits@.reverse().take(k + 1));
        }
        k = k + 1;
    }
    proof {
        assert(digits@.reverse().take(n as int) =~= digits@.reverse());
    }
    r
}

/// The decimal spelling of a signed number.
pub fn i32_to_string(x: i32) -> (r: String)
    ensures
        r@ == dec_str(x as int),
{
    if x >= 0 {
        u32_to_string(x as u32)
    } else {
        let m: u32 = ((-(x as i64)) as u32);
        let mut r = String::new();
        push_char(&mut r, '-');
        let ds = u32_to_string(m);
        r.append(ds.as_str());
        proof {
            assert(r@ =~= seq!['-'] + dec_digits((-(x as int)) as nat));
        }
        r
    }
}

} // verus!