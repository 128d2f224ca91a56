use vstd::prelude::*;

use crate::amount::{amount_fits, decimal_str_value, Amount};
use crate::digits::{uint_str_valid, uint_str_value};
use crate::ledger::{Input, Operation};

verus! {

/// ASCII whitespace, as trimmed from a field before parsing.
pub open spec fn is_space(b: u8) -> bool {
    b == 32 || b == 9 || b == 10 || b == 13 || b == 11 || b == 12
}

/// A field with its leading whitespace dropped.
pub open spec fn trim_start_spec(s: Seq<u8>) -> Seq<u8>
    decreases s.len(),
{
    if s.len() > 0 && is_space(s[0]) {
        trim_start_spec(s.skip(1))
    } else {
        s
    }
}

/// A field with its trailing whitespace dropped.
pub open spec fn trim_end_spec(s: Seq<u8>) -> Seq<u8>
    decreases s.len(),
{
    if s.len() > 0 && is_space(s.last()) {
        trim_end_spec(s.drop_last())
    } else {
        s
    }
}

/// A field with whitespace dropped at both ends.
pub open spec fn trim_spec(s: Seq<u8>) -> Seq<u8> {
    trim_end_spec(trim_start_spec(s))
}

proof fn lemma_trim_start(s: Seq<u8>, lo: int)
    requires
        0 <= lo <= s.len(),
        forall|t: int| 0 <= t < lo ==> is_space(#[trigger] s[t]),
        lo < s.len() ==> !is_space(s[lo]),
    ensures
        trim_start_spec(s) == s.subrange(lo, s.len() as int),
    decreases lo,
{
    if lo == 0 {
        assert(s.subrange(0, s.len() as int) =~= s);
    } else {
        let s1 = s.skip(1);
        lemma_trim_start(s1, lo - 1);
        assert(s1.subrange(lo - 1, s1.len() as int) =~= s.subrange(lo, s.len() as int));
    }
}

proof fn lemma_trim_end(s: Seq<u8>, hi: int)
    requires
        0 <= hi <= s.len(),
        forall|t: int| hi <= t < s.len() ==> is_space(#[trigger] s[t]),
        hi > 0 ==> !is_space(s[hi - 1]),
    ensures
        trim_end_spec(s) == s.subrange(0, hi),
    decreases s.len(),
{
    if hi == s.len() {
        if s.len() > 0 && is_space(s.last()) {
            assert(false);
        }
        assert(s.subrange(0, s.len() as int) =~= s);
    } else {
        let s1 = s.drop_last();
        lemma_trim_end(s1, hi);
        assert(s1.subrange(0, hi) =~= s.subrange(0, hi));
    }
}

/// Copies a field without its surrounding whitespace.
#[verifier::loop_isolation(false)]
pub fn trim(s: &[u8]) -> (r: Vec<u8>)
    ensures
        r@ == trim_spec(s@),
{
    let n = s.len();
    let mut lo: usize = 0;
    while lo < n && (s[lo] == 32 || s[lo] == 9 || s[lo] == 10 || s[lo] == 13 || s[lo] == 11 || s[lo]
        == 12)
        invariant
            lo <= n,
            forall|t: int| 0 <= t < lo ==> is_space(#[trigger] s@[t]),
        decreases n - lo,
    {
        lo = lo + 1;
    }
    let mut hi: usize = n;
    while hi > lo && (s[hi - 1] == 32 || s[hi - 1] == 9 || s[hi - 1] == 10 || s[hi - 1] == 13 || s[
        hi - 1] == 11 || s[hi - 1] == 12)
        invariant
            lo <= hi <= n,
            forall|t: int| hi <= t < n ==> is_space(#[trigger] s@[t]),
        decreases hi,
    {
        hi = hi - 1;
    }
    let mut r: Vec<u8> = Vec::new();
    let mut k: usize = lo;
    while k < hi
        invariant
            lo <= k <= hi,
            r@ == s@.subrange(lo as int, k as int),
        decreases hi - k,
    {
        r.push(s[k]);
        proof {
            assert(r@ =~= s@.subrange(lo as int, k as int + 1));
        }
        k = k + 1;
    }
    proof {
        lemma_trim_start(s@, lo as int);
        let u = s@.subrange(lo as int, n as int);
        assert forall|t: int| hi - lo <= t < u.len() implies is_space(#[trigger] u[t]) by {
            assert(u[t] == s@[t + lo]);
        }
        if hi > lo {
            assert(u[hi - lo - 1] == s@[hi - 1]);
        }
        lemma_trim_end(u, hi - lo);
        assert(u.subrange(0, hi - lo) =~= s@.subrange(lo as int, hi as int));
    }
    r
}

/// ASCII lowercasing of one byte.
pub open spec fn lower_byte(b: u8) -> u8 {
    if 65 <= b && b <= 90 {
        (b + 32) as u8
    } else {
        b
    }
}

/// ASCII lowercasing of a field.
pub open spec fn lower_seq(s: Seq<u8>) -> Seq<u8> {
    s.map_values(|b: u8| lower_byte(b))
}

/// Copies a field with every ASCII letter lowercased.
#[verifier::loop_isolation(false)]
pub fn to_lower(s: &[u8]) -> (r: Vec<u8>)
    ensures
        r@ == lower_seq(s@),
{
    let n = s.len();
    let mut r: Vec<u8> = Vec::new();
    let mut k: usize = 0;
    while k < n
        invariant
            k <= n,
            r@ == lower_seq(s@).subrange(0, k as int),
        decreases n - k,
    {
        let b = s[k];
        if 65 <= b && b <= 90 {
            r.push(b + 32);
        } else {
            r.push(b);
        }
        proof {
            assert(r@ =~= lower_seq(s@).subrange(0, k as int + 1));
        }
        k = k + 1;
    }
    proof {
        assert(lower_seq(s@).subrange(0, n as int) =~= lower_seq(s@));
    }
    r
}

pub open spec fn name_deposit() -> Seq<u8> {
    seq![100u8, 101u8, 112u8, 111u8, 115u8, 105u8, 116u8]
}

pub open spec fn name_withdrawal() -> Seq<u8> {
    seq![119u8, 105u8, 116u8, 104u8, 100u8, 114u8, 97u8, 119u8, 97u8, 108u8]
}

pub open spec fn name_dispute() -> Seq<u8> {
    seq![100u8, 105u8, 115u8, 112u8, 117u8, 116u8, 101u8]
}

pub open spec fn name_resolve() -> Seq<u8> {
    seq![114u8, 101u8, 115u8, 111u8, 108u8, 118u8, 101u8]
}

pub open spec fn name_chargeback() -> Seq<u8> {
    seq![99u8, 104u8, 97u8, 114u8, 103u8, 101u8, 98u8, 97u8, 99u8, 107u8]
}

/// The operation a field names, compared without regard to letter case.
pub open spec fn operation_of_name(s: Seq<u8>) -> Option<Operation> {
    let l = lower_seq(s);
    if l == name_deposit() {
        Some(Operation::Deposit)
    } else if l == name_withdrawal() {
        Some(Operation::Withdrawal)
    } else if l == name_dispute() {
        Some(Operation::Dispute)
    } else if l == name_resolve() {
        Some(Operation::Resolve)
    } else if l == name_chargeback() {
        Some(Operation::Chargeback)
    } else {
        None
    }
}

/// Reads an operation field, compared without regard to letter case.
pub fn parse_operation(s: &[u8]) -> (r: Option<Operation>)
    ensures
        r == operation_of_name(s@),
{
    let v = to_lower(s);
    let n = v.len();
    if n == 7 && v[0] == 100 && v[1] == 101 && v[2] == 112 && v[3] == 111 && v[4] == 115 && v[5]
        == 105 && v[6] == 116 {
        proof {
            assert(v@ =~= name_deposit());
        }
        Some(Operation::Deposit)
    } else if n == 10 && v[0] == 119 && v[1] == 105 && v[2] == 116 && v[3] == 104 && v[4] == 100
        && v[5] == 114 && v[6] == 97 && v[7] == 119 && v[8] == 97 && v[9] == 108 {
        proof {
            assert(v@ =~= name_withdrawal());
        }
        Some(Operation::Withdrawal)
    } else if n == 7 && v[0] == 100 && v[1] == 105 && v[2] == 115 && v[3] == 112 && v[4] == 117
        && v[5] == 116 && v[6] == 101 {
        proof {
            assert(v@ =~= name_dispute());
        }
        Some(Operation::Dispute)
    } else if n == 7 && v[0] == 114 && v[1] == 101 && v[2] == 115 && v[3] == 111 && v[4] == 108
        && v[5] == 118 && v[6] == 101 {
        proof {
            assert(v@ =~= name_resolve());
        }
        Some(Operation::Resolve)
    } else if n == 10 && v[0] == 99 && v[1] == 104 && v[2] == 97 && v[3] == 114 && v[4] == 103
        && v[5] == 101 && v[6] == 98 && v[7] == 97 && v[8] == 99 && v[9] == 107 {
        proof {
            assert(v@ =~= name_chargeback());
        }
        Some(Operation::Chargeback)
    } else {
        proof {
            if v@ == name_deposit() || v@ == name_withdrawal() || v@ == name_dispute() || v@
                == name_resolve() || v@ == name_chargeback() {
                assert(false);
            }
        }
        None
    }
}

/// The client identifier a field denotes, if any.
pub open spec fn u16_of(s: Seq<u8>) -> Option<u16> {
    if uint_str_valid(s) && uint_str_value(s) <= 0xffff {
        Some(uint_str_value(s) as u16)
    } else {
        None
    }
}

/// The transaction identifier a field denotes, if any.
pub open spec fn u32_of(s: Seq<u8>) -> Option<u32> {
    if uint_str_valid(s) && uint_str_value(s) <= 0xffff_ffff {
        Some(uint_str_value(s) as u32)
    } else {
        None
    }
}

/// Reads a client identifier field.
pub fn parse_u16(s: &[u8]) -> (r: Option<u16>)
    ensures
        r == u16_of(s@),
{
    match crate::digits::parse_uint(s, 0xffff) {
        Some(v) => Some(v as u16),
        None => None,
    }
}

/// Reads a transaction identifier field.
pub fn parse_u32(s: &[u8]) -> (r: Option<u32>)
    ensures
        r == u32_of(s@),
{
    match crate::digits::parse_uint(s, 0xffff_ffff) {
        Some(v) => Some(v as u32),
        None => None,
    }
}

pub open spec fn name_type() -> Seq<u8> {
    seq![116u8, 121u8, 112u8, 101u8]
}

pub open spec fn name_client() -> Seq<u8> {
    seq![99u8, 108u8, 105u8, 101u8, 110u8, 116u8]
}

pub open spec fn name_tx() -> Seq<u8> {
    seq![116u8, 120u8]
}

pub open spec fn name_amount() -> Seq<u8> {
    seq![97u8, 109u8, 111u8, 117u8, 110u8, 116u8]
}

/// A header field names a column: compared trimmed and without regard to
/// letter case.
pub open spec fn header_matches(f: Seq<u8>, name: Seq<u8>) -> bool {
    lower_seq(trim_spec(f)) == name
}

/// Where in a row each of the four columns stands, read from the header.
#[derive(Clone, Copy, Debug)]
pub struct Columns {
    pub type_idx: usize,
    pub client_idx: usize,
    pub tx_idx: usize,
    pub amount_idx: usize,
}

/// Tests a trimmed, lowercased header field against one column name.
fn field_is(f: &[u8], which: u8) -> (r: bool)
    requires
        which < 4,
    ensures
        which == 0 ==> r == header_matches(f@, name_type()),
        which == 1 ==> r == header_matches(f@, name_client()),
        which == 2 ==> r == header_matches(f@, name_tx()),
        which == 3 ==> r == header_matches(f@, name_amount()),
{
    let t = trim(f);
    let v = to_lower(t.as_slice());
    let n = v.len();
    if which == 0 {
        let r = n == 4 && v[0] == 116 && v[1] == 121 && v[2] == 112 && v[3] == 101;
        proof {
            if r {
                assert(v@ =~= name_type());
            }
        }
        r
    } else if which == 1 {
        let r = n == 6 && v[0] == 99 && v[1] == 108 && v[2] == 105 && v[3] == 101 && v[4] == 110
            && v[5] == 116;
        proof {
            if r {
                assert(v@ =~= name_client());
            }
        }
        r
    } else if which == 2 {
        let r = n == 2 && v[0] == 116 && v[1] == 120;
        proof {
            if r {
                assert(v@ =~= name_tx());
            }
        }
        r
    } else {
        let r = n == 6 && v[0] == 97 && v[1] == 109 && v[2] == 111 && v[3] == 117 && v[4] == 110
            && v[5] == 116;
        proof {
            if r {
                assert(v@ =~= name_amount());
            }
        }
        r
    }
}

/// Finds each column's first occurrence in the header; `None` when one of
/// the four is missing.
#[verifier::loop_isolation(false)]
pub fn find_columns(header: &Vec<Vec<u8>>) -> (r: Option<Columns>)
    ensures
        ({
            let h = header.deep_view();
            match r {
                Some(c) => {
                    &&& c.type_idx < h.len() && header_matches(h[c.type_idx as int], name_type())
                        && (forall|t: int|
                        0 <= t < c.type_idx ==> !header_matches(#[trigger] h[t], name_type()))
                    &&& c.client_idx < h.len() && header_matches(
                        h[c.client_idx as int],
                        name_client(),
                    ) && (forall|t: int|
                        0 <= t < c.client_idx ==> !header_matches(#[trigger] h[t], name_client()))
                    &&& c.tx_idx < h.len() && header_matches(h[c.tx_idx as int], name_tx()) && (
                    forall|t: int|
                        0 <= t < c.tx_idx ==> !header_matches(#[trigger] h[t], name_tx()))
                    &&& c.amount_idx < h.len() && header_matches(
                        h[c.amount_idx as int],
                        name_amount(),
                    ) && (forall|t: int|
                        0 <= t < c.amount_idx ==> !header_matches(#[trigger] h[t], name_amount()))
                },
                None => {
                    ||| forall|t: int|
                        0 <= t < h.len() ==> !header_matches(#[trigger] h[t], name_type())
                    ||| forall|t: int|
                        0 <= t < h.len() ==> !header_matches(#[trigger] h[t], name_client())
                    ||| forall|t: int|
                        0 <= t < h.len() ==> !header_matches(#[trigger] h[t], name_tx())
                    ||| forall|t: int|
                        0 <= t < h.len() ==> !header_matches(#[trigger] h[t], name_amount())
                },
            }
        }),
{
    let ghost h = header.deep_view();
    let n = header.len();
    let mut type_idx: Option<usize> = None;
    let mut client_idx: Option<usize> = None;
    let mut tx_idx: Option<usize> = None;
    let mut amount_idx: Option<usize> = None;
    let mut i: usize = 0;
    while i < n
        invariant
            i <= n,
            match type_idx {
                Some(k) => k < i && header_matches(h[k as int], name_type()) && (forall|t: int|
                    0 <= t < k ==> !header_matches(#[trigger] h[t], name_type())),
                None => forall|t: int|
                    0 <= t < i ==> !header_matches(#[trigger] h[t], name_type()),
            },
            match client_idx {
                Some(k) => k < i && header_matches(h[k as int], name_client()) && (forall|t: int|
                    0 <= t < k ==> !header_matches(#[trigger] h[t], name_client())),
                None => forall|t: int|
                    0 <= t < i ==> !header_matches(#[trigger] h[t], name_client()),
            },
            match tx_idx {
                Some(k) => k < i && header_matches(h[k as int], name_tx()) && (forall|t: int|
                    0 <= t < k ==> !header_matches(#[trigger] h[t], name_tx())),
                None => forall|t: int|
                    0 <= t < i ==> !header_matches(#[trigger] h[t], name_tx()),
            },
            match amount_idx {
                Some(k) => k < i && header_matches(h[k as int], name_amount()) && (forall|t: int|
                    0 <= t < k ==> !header_matches(#[trigger] h[t], name_amount())),
                None => forall|t: int|
                    0 <= t < i ==> !header_matches(#[trigger] h[t], name_amount()),
            },
        decreases n - i,
    {
        let f = header[i].as_slice();
        proof {
            assert(f@ == h[i as int]);
        }
        if type_idx.is_none() && field_is(f, 0) {
            type_idx = Some(i);
        }
        if client_idx.is_none() && field_is(f, 1) {
            client_idx = Some(i);
        }
        if tx_idx.is_none() && field_is(f, 2) {
            tx_idx = Some(i);
        }
        if amount_idx.is_none() && field_is(f, 3) {
            amount_idx = Some(i);
        }
        i = i + 1;
    }
    match (type_idx, client_idx, tx_idx, amount_idx) {
        (Some(t), Some(c), Some(x), Some(a)) => Some(
            Columns { type_idx: t, client_idx: c, tx_idx: x, amount_idx: a },
        ),
        _ => None,
    }
}

/// A row's three mandatory fields exist and parse: an operation name, a
/// client identifier, a transaction identifier.
pub open spec fn row_ok(c: Columns, fs: Seq<Seq<u8>>) -> bool {
    &&& c.type_idx < fs.len()
    &&& c.client_idx < fs.len()
    &&& c.tx_idx < fs.len()
    &&& operation_of_name(trim_spec(fs[c.type_idx as int])) is Some
    &&& u16_of(trim_spec(fs[c.client_idx as int])) is Some
    &&& u32_of(trim_spec(fs[c.tx_idx as int])) is Some
}

/// The exact amount a row carries, when its amount field exists, parses,
/// and denotes a representable value.
pub open spec fn row_amount(c: Columns, fs: Seq<Seq<u8>>) -> Option<int> {
    if c.amount_idx < fs.len() {
        match decimal_str_value(trim_spec(fs[c.amount_idx as int])) {
            Some(v) => if amount_fits(v) {
                Some(v)
            } else {
                None
            },
            None => None,
        }
    } else {
        None
    }
}

/// Decodes one row into an input record. A row whose mandatory fields are
/// missing or unparseable is rejected as a whole; a missing or unparseable
/// amount field only leaves the record without an amount.
pub fn decode_row(c: &Columns, fields: &Vec<Vec<u8>>) -> (r: Option<Input>)
    ensures
        ({
            let fs = fields.deep_view();
            &&& (r is Some <==> row_ok(*c, fs))
            &&& (r matches Some(input) ==> {
                &&& Some(input.operation) == operation_of_name(trim_spec(fs[c.type_idx as int]))
                &&& Some(input.client_id) == u16_of(trim_spec(fs[c.client_idx as int]))
                &&& Some(input.transaction_id) == u32_of(trim_spec(fs[c.tx_idx as int]))
                &&& match row_amount(*c, fs) {
                    Some(v) => input.amount matches Some(a) && a@ == v,
                    None => input.amount is None,
                }
            })
        }),
{
    let ghost fs = fields.deep_view();
    let n = fields.len();
    proof {
        assert(fs.len() == fields@.len());
        assert forall|i: int| 0 <= i < fs.len() implies fs[i] == (#[trigger] fields@[i])@ by {
            assert(fs[i] =~= fields@[i]@);
        }
    }
    if c.type_idx >= n || c.client_idx >= n || c.tx_idx >= n {
        return None;
    }
    let tf = trim(fields[c.type_idx].as_slice());
    let operation = match parse_operation(tf.as_slice()) {
        Some(op) => op,
        None => {
            return None;
        },
    };
    let cf = trim(fields[c.client_idx].as_slice());
    let client_id = match parse_u16(cf.as_slice()) {
        Some(v) => v,
        None => {
            return None;
        },
    };
    let xf = trim(fields[c.tx_idx].as_slice());
    let transaction_id = match parse_u32(xf.as_slice()) {
        Some(v) => v,
        None => {
            return None;
        },
    };
    let amount: Option<Amount> = if c.amount_idx < n {
        let af = trim(fields[c.amount_idx].as_slice());
        Amount::parse(af.as_slice())
    } else {
        None
    };
    Some(Input { operation, client_id, transaction_id, amount })
}

} // verus!
