use std::str::FromStr;

use rust_decimal::Decimal;
use vstd::prelude::*;

use crate::amount::{fits, pow10, Amount, SCALE};
use crate::laws::lemma_replay_clients;
use crate::processor::{replay, Account, Operation, Processor, Transaction};

verus! {

/// What `Decimal::from_str` makes of a text: its mantissa and scale, or `None`
/// where it refuses the text.
pub uninterp spec fn decimal_parse(text: Seq<char>) -> Option<(int, nat)>;

/// Relies on rust_decimal's `FromStr for Decimal`: whether it accepts the text,
/// and the mantissa and scale of the decimal it builds.
#[verifier::external_body]
fn parse_decimal(text: &str) -> (r: Option<(i128, u32)>)
    ensures
        match r {
            Some(parts) => decimal_parse(text@) == Some((parts.0 as int, parts.1 as nat)),
            None => decimal_parse(text@) is None,
        },
{
    match Decimal::from_str(text) {
        Ok(d) => Some((d.mantissa(), d.scale())),
        Err(_) => None,
    }
}

/// The largest mantissa magnitude a `Decimal` holds: 96 bits.
pub const MAX_MANTISSA: i128 = 0xFFFF_FFFF_FFFF_FFFF_FFFF_FFFF;

/// The largest scale a `Decimal` holds.
pub const MAX_DECIMAL_SCALE: u32 = 28;

/// The text `Display for Decimal` writes for a mantissa and a scale.
pub uninterp spec fn decimal_text(mantissa: int, scale: nat) -> Seq<char>;

/// Relies on rust_decimal's `Display for Decimal`: the text of the decimal with
/// this mantissa and scale. `Decimal::from_i128_with_scale` builds the decimal
/// and panics outside the bounds that `requires` states.
#[verifier::external_body]
fn decimal_to_string(mantissa: i128, scale: u32) -> (r: String)
    requires
        -MAX_MANTISSA <= mantissa <= MAX_MANTISSA,
        scale <= MAX_DECIMAL_SCALE,
    ensures
        r@ == decimal_text(mantissa as int, scale as nat),
{
    Decimal::from_i128_with_scale(mantissa, scale).to_string()
}

/// Drops trailing zero digits of a magnitude while its scale is positive.
pub open spec fn strip_zeros(magnitude: nat, scale: nat) -> (nat, nat)
    decreases scale,
{
    if scale > 0 && magnitude % 10 == 0 {
        strip_zeros(magnitude / 10, (scale - 1) as nat)
    } else {
        (magnitude, scale)
    }
}

/// The mantissa and scale, without trailing zeros, of an amount of `x` units.
pub open spec fn normal_parts(x: int) -> (int, nat) {
    let magnitude = if x < 0 {
        -x
    } else {
        x
    };
    let parts = strip_zeros(magnitude as nat, SCALE as nat);
    (if x < 0 {
        -parts.0
    } else {
        parts.0 as int
    }, parts.1)
}

/// The decimal text of an amount of `x` units, where its normal mantissa fits
/// a `Decimal`.
pub open spec fn text_of(x: int) -> Option<Seq<char>> {
    let parts = normal_parts(x);
    if -MAX_MANTISSA <= parts.0 <= MAX_MANTISSA {
        Some(decimal_text(parts.0, parts.1))
    } else {
        None
    }
}

/// Whether every balance of the account can be written as a decimal.
pub open spec fn writable(a: Account) -> bool {
    text_of(a.available) is Some && text_of(a.held) is Some && text_of(a.total) is Some
}

/// Writes an amount as decimal text without trailing zeros, or `None` where
/// its mantissa is beyond what a `Decimal` holds.
pub fn amount_text(a: Amount) -> (r: Option<String>)
    ensures
        match r {
            Some(t) => text_of(a@) == Some(t@),
            None => text_of(a@) is None,
        },
{
    let negative = a.units < 0;
    let mut magnitude: u128 = if negative {
        (-(a.units + 1)) as u128 + 1
    } else {
        a.units as u128
    };
    let mut scale: u32 = SCALE;
    while scale > 0 && magnitude % 10 == 0
        invariant
            scale <= SCALE,
            strip_zeros(magnitude as nat, scale as nat) == strip_zeros(
                (if a@ < 0 {
                    -a@
                } else {
                    a@
                }) as nat,
                SCALE as nat,
            ),
        decreases scale,
    {
        magnitude = magnitude / 10;
        scale = scale - 1;
    }
    if magnitude > MAX_MANTISSA as u128 {
        return None;
    }
    let mantissa: i128 = if negative {
        -(magnitude as i128)
    } else {
        magnitude as i128
    };
    Some(decimal_to_string(mantissa, scale))
}

/// Why a batch of wire records was refused.
#[derive(Clone, Copy, Debug, PartialEq, Eq, Structural)]
pub enum RpcError {
    /// An operation code outside the five known kinds.
    InvalidOperation,
    /// An amount text that is not a decimal this library can hold exactly.
    InvalidAmount,
    /// A resulting balance too large to be written as a decimal.
    AmountOutOfRange,
}

/// One operation as it comes over the wire: a numeric kind, the client and
/// transaction ids, and the amount as text (empty where there is none).
#[derive(Debug)]
pub struct RpcTransaction {
    pub kind: i32,
    pub client: u32,
    pub tx: u32,
    pub amount: String,
}

/// The operation kind a wire code stands for.
pub open spec fn operation_of(code: i32) -> Option<Operation> {
    if code == 0 {
        Some(Operation::Deposit)
    } else if code == 1 {
        Some(Operation::Withdrawal)
    } else if code == 2 {
        Some(Operation::Dispute)
    } else if code == 3 {
        Some(Operation::Resolve)
    } else if code == 4 {
        Some(Operation::Chargeback)
    } else {
        None
    }
}

/// The amount a wire text stands for: none for the empty text, else the parsed
/// decimal where it can be held exactly.
pub open spec fn amount_of(text: Seq<char>) -> Result<Option<Amount>, RpcError> {
    if text.len() == 0 {
        Ok(None)
    } else {
        match decimal_parse(text) {
            None => Err(RpcError::InvalidAmount),
            Some(parts) => if parts.1 <= SCALE && fits(parts.0 * pow10((SCALE - parts.1) as nat)) {
                Ok(Some(Amount { units: (parts.0 * pow10((SCALE - parts.1) as nat)) as i128 }))
            } else {
                Err(RpcError::InvalidAmount)
            },
        }
    }
}

/// The operation a wire record stands for; the client id keeps its low 16 bits.
pub open spec fn decode_spec(r: RpcTransaction) -> Result<Transaction, RpcError> {
    match operation_of(r.kind) {
        None => Err(RpcError::InvalidOperation),
        Some(kind) => match amount_of(r.amount@) {
            Err(e) => Err(e),
            Ok(amount) => Ok(
                Transaction { kind, client: (r.client % 65536) as u16, tx: r.tx, amount },
            ),
        },
    }
}

/// The operations of a batch, or the error of its first bad record.
pub open spec fn decode_all(rs: Seq<RpcTransaction>) -> Result<Seq<Transaction>, RpcError>
    decreases rs.len(),
{
    if rs.len() == 0 {
        Ok(Seq::empty())
    } else {
        match decode_all(rs.drop_last()) {
            Err(e) => Err(e),
            Ok(ts) => match decode_spec(rs.last()) {
                Err(e) => Err(e),
                Ok(t) => Ok(ts.push(t)),
            },
        }
    }
}

/// The operation kind of a wire code, if it is one of the five.
pub fn operation_from_code(code: i32) -> (r: Option<Operation>)
    ensures
        r == operation_of(code),
{
    match code {
        0 => Some(Operation::Deposit),
        1 => Some(Operation::Withdrawal),
        2 => Some(Operation::Dispute),
        3 => Some(Operation::Resolve),
        4 => Some(Operation::Chargeback),
        _ => None,
    }
}

/// Reads a wire amount: empty means absent; otherwise a decimal that must be
/// held exactly.
pub fn parse_amount(text: &str) -> (r: Result<Option<Amount>, RpcError>)
    ensures
        r == amount_of(text@),
{
    if text.is_empty() {
        return Ok(None);
    }
    match parse_decimal(text) {
        None => Err(RpcError::InvalidAmount),
        Some((mantissa, scale)) => match Amount::from_parts(mantissa, scale) {
            Some(a) => Ok(Some(a)),
            None => Err(RpcError::InvalidAmount),
        },
    }
}

/// The operation a wire record stands for.
pub fn decode(record: &RpcTransaction) -> (r: Result<Transaction, RpcError>)
    ensures
        r == decode_spec(*record),
{
    let kind = match operation_from_code(record.kind) {
        Some(k) => k,
        None => return Err(RpcError::InvalidOperation),
    };
    let amount = match parse_amount(record.amount.as_str()) {
        Ok(a) => a,
        Err(e) => return Err(e),
    };
    Ok(Transaction { kind, client: (record.client % 65536) as u16, tx: record.tx, amount })
}

/// The operations of a batch, refused as a whole at its first bad record.
pub fn decode_batch(records: &Vec<RpcTransaction>) -> (r: Result<Vec<Transaction>, RpcError>)
    ensures
        match r {
            Ok(ts) => decode_all(records@) == Ok::<Seq<Transaction>, RpcError>(ts@),
            Err(e) => decode_all(records@) == Err::<Seq<Transaction>, RpcError>(e),
        },
{
    let mut out: Vec<Transaction> = Vec::new();
    let mut i: usize = 0;
    while i < records.len()
        invariant
            i <= records.len(),
            decode_all(records@.subrange(0, i as int)) == Ok::<Seq<Transaction>, RpcError>(
                out@,
            ),
        decreases records.len() - i,
    {
        let r = decode(&records[i]);
        proof {
            let next = records@.subrange(0, i + 1);
            assert(next.drop_last() =~= records@.subrange(0, i as int));
            assert(next.last() == records@[i as int]);
        }
        match r {
            Ok(t) => out.push(t),
            Err(e) => {
                proof {
                    lemma_decode_error_persists(records@, i as int + 1);
                }
                return Err(e);
            },
        }
        i = i + 1;
    }
    assert(records@.subrange(0, i as int) =~= records@);
    Ok(out)
}

/// Once a prefix of the batch fails to decode, so does the whole batch, with
/// the same error.
proof fn lemma_decode_error_persists(rs: Seq<RpcTransaction>, n: int)
    requires
        0 <= n <= rs.len(),
        decode_all(rs.subrange(0, n)) is Err,
    ensures
        decode_all(rs) == decode_all(rs.subrange(0, n)),
    decreases rs.len() - n,
{
    if n == rs.len() {
        assert(rs.subrange(0, n) =~= rs);
    } else {
        let next = rs.subrange(0, n + 1);
        assert(next.drop_last() =~= rs.subrange(0, n));
        lemma_decode_error_persists(rs, n + 1);
    }
}

/// One account as it goes back over the wire, balances as decimal text.
#[derive(Debug)]
pub struct RpcAccount {
    pub client: u32,
    pub available: String,
    pub held: String,
    pub total: String,
    pub locked: bool,
}

/// Whether a wire account writes out the account `a`.
pub open spec fn renders(out: RpcAccount, a: Account) -> bool {
    &&& text_of(a.available) == Some(out.available@)
    &&& text_of(a.held) == Some(out.held@)
    &&& text_of(a.total) == Some(out.total@)
    &&& out.locked == a.locked
}

/// Whether every account of the ledger can be written out.
pub open spec fn all_writable(m: Map<u16, Account>) -> bool {
    forall|c: u16| #[trigger] m.contains_key(c) ==> writable(m[c])
}

/// Whether `v` writes out each account of the ledger `m` exactly once.
pub open spec fn reply_of(v: Seq<RpcAccount>, m: Map<u16, Account>) -> bool {
    &&& forall|i: int|
        0 <= i < v.len() ==> {
            &&& (#[trigger] v[i]).client < 65536
            &&& m.contains_key(v[i].client as u16)
            &&& renders(v[i], m[v[i].client as u16])
        }
    &&& forall|c: u16| #[trigger]
        m.contains_key(c) ==> exists|i: int| 0 <= i < v.len() && (#[trigger] v[i]).client == c as u32
    &&& forall|i: int, j: int|
        0 <= i < j < v.len() ==> (#[trigger] v[i]).client != (#[trigger] v[j]).client
}

/// Whether some operation of `ts` names client `c`.
pub open spec fn names_client(ts: Seq<Transaction>, c: u16) -> bool {
    exists|i: int| 0 <= i < ts.len() && (#[trigger] ts[i]).client == c
}

/// The clients that the operations name, each once, in order of first mention.
pub fn clients_in_order(ts: &Vec<Transaction>) -> (r: Vec<u16>)
    ensures
        r@.no_duplicates(),
        forall|c: u16| r@.contains(c) <==> names_client(ts@, c),
{
    let mut out: Vec<u16> = Vec::new();
    let mut i: usize = 0;
    while i < ts.len()
        invariant
            i <= ts.len(),
            out@.no_duplicates(),
            forall|c: u16| out@.contains(c) <==> names_client(ts@.subrange(0, i as int), c),
        decreases ts.len() - i,
    {
        let c = ts[i].client;
        let mut seen = false;
        let mut j: usize = 0;
        while j < out.len()
            invariant
                i < ts.len(),
                c == ts@[i as int].client,
                out@.no_duplicates(),
                forall|d: u16| out@.contains(d) <==> names_client(ts@.subrange(0, i as int), d),
                j <= out.len(),
                seen <==> exists|q: int| 0 <= q < j && out@[q] == c,
            decreases out.len() - j,
        {
            if out[j] == c {
                seen = true;
            }
            j = j + 1;
        }
        let ghost before = out@;
        assert(forall|d: u16| before.contains(d) <==> names_client(ts@.subrange(0, i as int), d));
        if !seen {
            out.push(c);
        }
        proof {
            if seen {
                let q = choose|q: int| 0 <= q < j && out@[q] == c;
                assert(before[q] == c);
            } else {
                assert(out@ == before.push(c));
            }
            let prev = ts@.subrange(0, i as int);
            let next = ts@.subrange(0, i + 1);
            assert(next[i as int] == ts@[i as int]);
            assert(ts@[i as int].client == c);
            assert(names_client(next, c));
            assert forall|d: u16| names_client(prev, d) implies names_client(next, d) by {
                let k = choose|k: int| 0 <= k < prev.len() && (#[trigger] prev[k]).client == d;
                assert(next[k] == prev[k]);
            }
            assert forall|d: u16| names_client(next, d) implies names_client(prev, d) || d == c by {
                let k = choose|k: int| 0 <= k < next.len() && (#[trigger] next[k]).client == d;
                if k < i {
                    assert(prev[k] == next[k]);
                }
            }
            assert forall|d: u16| out@.contains(d) <==> names_client(next, d) by {
                if !seen {
                    lemma_push_contains(before, c, d);
                }
                assert(before.contains(d) <==> names_client(prev, d));
                if names_client(prev, d) {
                    assert(names_client(next, d));
                }
                if names_client(next, d) {
                    assert(names_client(prev, d) || d == c);
                }
            }
        }
        i = i + 1;
    }
    assert(ts@.subrange(0, i as int) =~= ts@);
    out
}

proof fn lemma_push_contains(s: Seq<u16>, x: u16, d: u16)
    ensures
        s.push(x).contains(d) <==> (s.contains(d) || d == x),
{
    if s.contains(d) {
        let q = choose|q: int| 0 <= q < s.len() && s[q] == d;
        assert(s.push(x)[q] == d);
    }
    if s.push(x).contains(d) {
        let q = choose|q: int| 0 <= q < s.len() + 1 && s.push(x)[q] == d;
        if q < s.len() {
            assert(s[q] == d);
        }
    }
    assert(s.push(x)[s.len() as int] == x);
}

/// Runs a batch of wire records on a ledger of its own and returns every
/// account that the batch names.
#[derive(Debug, Default)]
pub struct MyProcessor {}

impl MyProcessor {
    /// Refuses the batch at its first record with an unknown kind or a bad
    /// amount, before any operation is applied. Otherwise applies the
    /// operations in order to a fresh ledger, skipping those the ledger refuses,
    /// and returns each account once, in order of first mention, unless some
    /// balance cannot be written as a decimal.
    pub fn process(&self, records: &Vec<RpcTransaction>) -> (r: Result<Vec<RpcAccount>, RpcError>)
        ensures
            match decode_all(records@) {
                Err(e) => r == Err::<Vec<RpcAccount>, RpcError>(e),
                Ok(ts) => {
                    let m = replay(Map::empty(), ts);
                    &&& r is Ok <==> all_writable(m)
                    &&& r is Err ==> r == Err::<Vec<RpcAccount>, RpcError>(RpcError::AmountOutOfRange)
                    &&& r is Ok ==> reply_of(r->Ok_0@, m)
                },
            },
    {
        let ts = match decode_batch(records) {
            Ok(ts) => ts,
            Err(e) => return Err(e),
        };
        let ids = clients_in_order(&ts);
        let ghost tseq = ts@;
        let processor = Processor::from_iter(ts);
        let ghost m = replay(Map::empty(), tseq);
        proof {
            assert forall|c: u16| m.contains_key(c) <==> ids@.contains(c) by {
                lemma_replay_clients(Map::empty(), tseq, c);
            }
        }
        let mut out: Vec<RpcAccount> = Vec::new();
        let mut k: usize = 0;
        while k < ids.len()
            invariant
                k <= ids.len(),
                ids@.no_duplicates(),
                processor.accounts() == m,
                m == replay(Map::empty(), tseq),
                decode_all(records@) == Ok::<Seq<Transaction>, RpcError>(tseq),
                forall|c: u16| m.contains_key(c) <==> ids@.contains(c),
                out@.len() == k,
                forall|i: int| 0 <= i < k ==> (#[trigger] out@[i]).client == ids@[i] as u32,
                forall|i: int| 0 <= i < k ==> renders(#[trigger] out@[i], m[ids@[i]]),
                forall|i: int| 0 <= i < k ==> writable(#[trigger] m[ids@[i]]),
            decreases ids.len() - k,
        {
            let id = ids[k];
            assert(ids@.contains(id));
            let client = processor.clients().get(&id).unwrap();
            let (available, held, total, locked) = client.snapshot();
            assert(m.contains_key(id) && m[id] == client@);
            let texts = (amount_text(available), amount_text(held), amount_text(total));
            let (available, held, total) = match texts {
                (Some(a), Some(h), Some(t)) => (a, h, t),
                _ => {
                    proof {
                        assert(!writable(m[id]));
                        assert(!all_writable(m));
                    }
                    return Err(RpcError::AmountOutOfRange);
                },
            };
            out.push(RpcAccount { client: id as u32, available, held, total, locked });
            k = k + 1;
        }
        proof {
            assert forall|c: u16| #[trigger] m.contains_key(c) implies exists|i: int|
                0 <= i < out@.len() && (#[trigger] out@[i]).client == c as u32 by {
                let i = ids@.index_of(c);
                assert(out@[i].client == c as u32);
            }
            assert forall|c: u16| #[trigger] m.contains_key(c) implies writable(m[c]) by {
                let i = ids@.index_of(c);
                assert(writable(m[ids@[i]]));
            }
            assert(all_writable(m));
            assert(reply_of(out@, m));
        }
        Ok(out)
    }
}

} // verus!
