//! The commands carried in the message of an inbound token transfer:
//! `staking:<pid>` and `borrow:<pid>:<index>:<repay_amount>`, fields split
//! at each `:` and numbers trimmed of ASCII white space. White space outside
//! ASCII (such as U+00A0) is not trimmed: a number next to it is rejected.
use vstd::prelude::*;

use crate::types::PoolError;

verus! {

/// What an inbound transfer asks the ledger to do.
#[derive(Clone, Copy, Debug, PartialEq, Eq, Structural)]
pub enum Command {
    /// Deposit the transferred tokens into pool `pid`.
    Stake { pid: u128 },
    /// Repay `repay_amount` of loan `index` in pool `pid` with the
    /// transferred tokens.
    Repay { pid: u128, index: usize, repay_amount: u128 },
}

/// The field separator.
pub const COLON: u8 = 58;

/// The word that selects a deposit.
pub open spec fn staking_word() -> Seq<u8> {
    seq![115u8, 116u8, 97u8, 107u8, 105u8, 110u8, 103u8]
}

/// The word that selects a repayment.
pub open spec fn borrow_word() -> Seq<u8> {
    seq![98u8, 111u8, 114u8, 114u8, 111u8, 119u8]
}

/// `b` split at each colon; an empty input is one empty field.
pub open spec fn split_fields(b: Seq<u8>) -> Seq<Seq<u8>>
    decreases b.len(),
{
    if b.len() == 0 {
        seq![Seq::empty()]
    } else {
        let rest = split_fields(b.drop_last());
        if b.last() == COLON {
            rest.push(Seq::empty())
        } else {
            rest.update(rest.len() - 1, rest.last().push(b.last()))
        }
    }
}

/// An ASCII white-space byte.
pub open spec fn is_space(c: u8) -> bool {
    c == 9 || c == 10 || c == 11 || c == 12 || c == 13 || c == 32
}

/// `f` without its leading white space.
pub open spec fn trim_start(f: Seq<u8>) -> Seq<u8>
    decreases f.len(),
{
    if f.len() > 0 && is_space(f[0]) {
        trim_start(f.drop_first())
    } else {
        f
    }
}

/// `f` without its trailing white space.
pub open spec fn trim_end(f: Seq<u8>) -> Seq<u8>
    decreases f.len(),
{
    if f.len() > 0 && is_space(f.last()) {
        trim_end(f.drop_last())
    } else {
        f
    }
}

/// `f` without leading and trailing white space.
pub open spec fn trim(f: Seq<u8>) -> Seq<u8> {
    trim_end(trim_start(f))
}

/// A decimal digit.
pub open spec fn is_digit(c: u8) -> bool {
    48 <= c <= 57
}

/// The value of the decimal digits `d`.
pub open spec fn digits_value(d: Seq<u8>) -> int
    decreases d.len(),
{
    if d.len() == 0 {
        0
    } else {
        digits_value(d.drop_last()) * 10 + (d.last() - 48)
    }
}

/// `f` without one leading `+`.
pub open spec fn unsigned_digits(f: Seq<u8>) -> Seq<u8> {
    if f.len() > 0 && f[0] == 43 {
        f.drop_first()
    } else {
        f
    }
}

/// `d` is one or more decimal digits.
pub open spec fn all_digits(d: Seq<u8>) -> bool {
    d.len() > 0 && forall|i: int| 0 <= i < d.len() ==> #[trigger] is_digit(d[i])
}

/// The unsigned number that `f` spells, an optional `+` and one or more
/// decimal digits, where it is at most `max`.
pub open spec fn parse_number(f: Seq<u8>, max: int) -> Option<int> {
    if all_digits(unsigned_digits(f)) && digits_value(unsigned_digits(f)) <= max {
        Some(digits_value(unsigned_digits(f)))
    } else {
        None
    }
}

/// The command that the message `b` holds. The pool id is read before the
/// command word is looked at. Numbers are trimmed of ASCII white space only.
pub open spec fn parse_command(b: Seq<u8>) -> Result<Command, PoolError> {
    let f = split_fields(b);
    if f.len() < 2 {
        Err(PoolError::WrongMessageFormat)
    } else {
        match parse_number(trim(f[1]), u128::MAX as int) {
            None => Err(PoolError::InvalidNumber),
            Some(pid) => if f[0] == staking_word() {
                Ok(Command::Stake { pid: pid as u128 })
            } else if f[0] == borrow_word() {
                if f.len() < 3 {
                    Err(PoolError::WrongMessageFormat)
                } else {
                    match parse_number(trim(f[2]), usize::MAX as int) {
                        None => Err(PoolError::InvalidNumber),
                        Some(index) => if f.len() < 4 {
                            Err(PoolError::WrongMessageFormat)
                        } else {
                            match parse_number(trim(f[3]), u128::MAX as int) {
                                None => Err(PoolError::InvalidNumber),
                                Some(repay) => Ok(
                                    Command::Repay {
                                        pid: pid as u128,
                                        index: index as usize,
                                        repay_amount: repay as u128,
                                    },
                                ),
                            }
                        }
                    }
                }
            } else {
                Err(PoolError::WrongMessageFormat)
            },
        }
    }
}

/// The fields of a list of byte vectors.
pub open spec fn fields_view(v: Seq<Vec<u8>>) -> Seq<Seq<u8>> {
    v.map_values(|f: Vec<u8>| f@)
}

/// Splits `b` at each colon.
pub fn split_message(b: &[u8]) -> (r: Vec<Vec<u8>>)
    ensures
        fields_view(r@) == split_fields(b@),
{
    let mut fields: Vec<Vec<u8>> = Vec::new();
    fields.push(Vec::new());
    let mut i: usize = 0;
    proof {
        assert(b@.subrange(0, 0) =~= Seq::<u8>::empty());
        assert(fields_view(fields@) =~= seq![Seq::<u8>::empty()]);
    }
    while i < b.len()
        invariant
            i <= b@.len(),
            fields@.len() >= 1,
            fields_view(fields@) == split_fields(b@.subrange(0, i as int)),
        decreases b@.len() - i,
    {
        let c = b[i];
        let ghost before = fields_view(fields@);
        if c == COLON {
            fields.push(Vec::new());
            proof {
                assert(fields_view(fields@) =~= before.push(Seq::empty()));
            }
        } else {
            let last = fields.len() - 1;
            fields[last].push(c);
            proof {
                assert(fields_view(fields@) =~= before.update(
                    before.len() - 1,
                    before.last().push(c),
                ));
            }
        }
        proof {
            assert(b@.subrange(0, i + 1).drop_last() =~= b@.subrange(0, i as int));
        }
        i += 1;
    }
    proof {
        assert(b@.subrange(0, b@.len() as int) =~= b@);
    }
    fields
}

/// `f` without leading and trailing white space.
pub fn trim_field(f: &Vec<u8>) -> (r: Vec<u8>)
    ensures
        r@ == trim(f@),
{
    let mut start: usize = 0;
    assert(f@.subrange(0, f@.len() as int) =~= f@);
    while start < f.len() && (f[start] == 9 || f[start] == 10 || f[start] == 11 || f[start] == 12
        || f[start] == 13 || f[start] == 32)
        invariant
            start <= f@.len(),
            trim_start(f@) == trim_start(f@.subrange(start as int, f@.len() as int)),
        decreases f@.len() - start,
    {
        proof {
            let s = f@.subrange(start as int, f@.len() as int);
            assert(s.drop_first() =~= f@.subrange(start + 1, f@.len() as int));
        }
        start += 1;
    }
    let ghost ts = f@.subrange(start as int, f@.len() as int);
    proof {
        assert(trim_start(ts) == ts);
    }
    let mut end: usize = f.len();
    while end > start && (f[end - 1] == 9 || f[end - 1] == 10 || f[end - 1] == 11 || f[end - 1]
        == 12 || f[end - 1] == 13 || f[end - 1] == 32)
        invariant
            start <= end <= f@.len(),
            ts == f@.subrange(start as int, f@.len() as int),
            trim(f@) == trim_end(f@.subrange(start as int, end as int)),
        decreases end - start,
    {
        proof {
            let s = f@.subrange(start as int, end as int);
            assert(s.drop_last() =~= f@.subrange(start as int, end - 1));
        }
        end -= 1;
    }
    let mut r: Vec<u8> = Vec::new();
    let mut k: usize = start;
    while k < end
        invariant
            start <= k <= end <= f@.len(),
            r@ == f@.subrange(start as int, k as int),
        decreases end - k,
    {
        r.push(f[k]);
        proof {
            assert(r@ =~= f@.subrange(start as int, k + 1));
        }
        k += 1;
    }
    proof {
        let s = f@.subrange(start as int, end as int);
        assert(r@ =~= s);
        if s.len() > 0 {
            assert(!is_space(s.last()));
        }
        assert(trim_end(s) == s);
    }
    r
}

/// A longer run of digits is worth at least as much as its prefix.
pub proof fn lemma_digits_grow(d: Seq<u8>, k: int)
    requires
        0 <= k <= d.len(),
        forall|i: int| 0 <= i < d.len() ==> is_digit(d[i]),
    ensures
        digits_value(d) >= digits_value(d.subrange(0, k)),
        digits_value(d) >= 0,
    decreases d.len(),
{
    if d.len() > 0 {
        assert(d.drop_last() =~= d.subrange(0, d.len() - 1));
        if k == d.len() {
            assert(d.subrange(0, k) =~= d);
            lemma_digits_grow(d.drop_last(), 0);
        } else {
            lemma_digits_grow(d.drop_last(), k);
            assert(d.drop_last().subrange(0, k) =~= d.subrange(0, k));
        }
    } else {
        assert(d.subrange(0, k) =~= d);
    }
}

/// The number that `f` spells, if it is one and at most `max`.
pub fn parse_field(f: &Vec<u8>, max: u128) -> (r: Option<u128>)
    ensures
        r == (match parse_number(f@, max as int) {
            Some(v) => Some(v as u128),
            None => None::<u128>,
        }),
        r matches Some(x) ==> parse_number(f@, max as int) == Some(x as int),
{
    let start: usize = if f.len() > 0 && f[0] == 43 {
        1
    } else {
        0
    };
    let ghost d = unsigned_digits(f@);
    assert(d =~= f@.subrange(start as int, f@.len() as int));
    if start >= f.len() {
        assert(d.len() == 0);
        return None;
    }
    let mut acc: u128 = 0;
    let mut k: usize = start;
    while k < f.len()
        invariant
            start <= k <= f@.len(),
            d == f@.subrange(start as int, f@.len() as int),
            d == unsigned_digits(f@),
            d.len() > 0,
            forall|i: int| 0 <= i < k - start ==> is_digit(d[i]),
            acc as int == digits_value(d.subrange(0, k - start)),
            acc <= max,
        decreases f@.len() - k,
    {
        let c = f[k];
        assert(d[k - start] == c);
        if !(48 <= c && c <= 57) {
            assert(!is_digit(d[k - start]));
            assert(!all_digits(d));
            assert(parse_number(f@, max as int) is None);
            return None;
        }
        let ghost prefix = d.subrange(0, k + 1 - start);
        proof {
            assert(prefix.drop_last() =~= d.subrange(0, k - start));
            assert(digits_value(prefix) == acc * 10 + (c - 48));
        }
        let next: Option<u128> = match acc.checked_mul(10) {
            Some(t) => match t.checked_add((c - 48) as u128) {
                Some(v) => if v <= max {
                    Some(v)
                } else {
                    None
                },
                None => None,
            },
            None => None,
        };
        match next {
            Some(v) => {
                acc = v;
            },
            None => {
                proof {
                    assert(acc * 10 + (c - 48) > max);
                    if all_digits(d) {
                        lemma_digits_grow(d, k + 1 - start);
                        assert(digits_value(d) > max);
                    }
                    assert(parse_number(f@, max as int) is None);
                }
                return None;
            },
        }
        k += 1;
    }
    proof {
        assert(d.subrange(0, d.len() as int) =~= d);
    }
    Some(acc)
}

/// Whether the field `f` is the word `w`.
pub fn word_is(f: &Vec<u8>, w: &[u8]) -> (r: bool)
    ensures
        r == (f@ == w@),
{
    if f.len() != w.len() {
        return false;
    }
    let mut k: usize = 0;
    while k < f.len()
        invariant
            f@.len() == w@.len(),
            k <= f@.len(),
            forall|i: int| 0 <= i < k ==> f@[i] == w@[i],
        decreases f@.len() - k,
    {
        if f[k] != w[k] {
            return false;
        }
        k += 1;
    }
    assert(f@ =~= w@);
    true
}

/// Reads the command that the message `b` holds.
pub fn parse_message(b: &[u8]) -> (r: Result<Command, PoolError>)
    ensures
        r == parse_command(b@),
{
    let fields = split_message(b);
    let ghost fv = fields_view(fields@);
    if fields.len() < 2 {
        return Err(PoolError::WrongMessageFormat);
    }
    assert(fields@[1]@ == fv[1]);
    let t1 = trim_field(&fields[1]);
    let pid = match parse_field(&t1, u128::MAX) {
        Some(v) => v,
        None => return Err(PoolError::InvalidNumber),
    };
    let staking: [u8; 7] = [115, 116, 97, 107, 105, 110, 103];
    let borrow: [u8; 6] = [98, 111, 114, 114, 111, 119];
    assert(staking@ =~= staking_word());
    assert(borrow@ =~= borrow_word());
    assert(fields@[0]@ == fv[0]);
    if word_is(&fields[0], staking.as_slice()) {
        Ok(Command::Stake { pid })
    } else if word_is(&fields[0], borrow.as_slice()) {
        if fields.len() < 3 {
            return Err(PoolError::WrongMessageFormat);
        }
        assert(fields@[2]@ == fv[2]);
        let index = match parse_field(&trim_field(&fields[2]), usize::MAX as u128) {
            Some(v) => v as usize,
            None => return Err(PoolError::InvalidNumber),
        };
        if fields.len() < 4 {
            return Err(PoolError::WrongMessageFormat);
        }
        assert(fields@[3]@ == fv[3]);
        let repay_amount = match parse_field(&trim_field(&fields[3]), u128::MAX) {
            Some(v) => v,
            None => return Err(PoolError::InvalidNumber),
        };
        Ok(Command::Repay { pid, index, repay_amount })
    } else {
        Err(PoolError::WrongMessageFormat)
    }
}

} // verus!
