use vstd::prelude::*;

use crate::indexer::event::ChainEvent;
use crate::indexer::primitives::Address;
use crate::recon::format::{decimal, decimal_digit, hex_bytes, hex_digit, prefixed_hex};
use crate::recon::reconcile::{account_of_spec, asset_of_spec, mirror_postings};
use crate::ledger::transaction::{asset_total, is_balanced};

verus! {

/// Distinct hexadecimal digit values have distinct digits.
proof fn lemma_hex_digit_injective(n: int, m: int)
    requires
        0 <= n < 16,
        0 <= m < 16,
        hex_digit(n) == hex_digit(m),
    ensures
        n == m,
{
    let d = seq!['0', '1', '2', '3', '4', '5', '6', '7', '8', '9', 'a', 'b', 'c', 'd', 'e', 'f'];
    assert(d[0] == '0' && d[1] == '1' && d[2] == '2' && d[3] == '3' && d[4] == '4' && d[5] == '5'
        && d[6] == '6' && d[7] == '7' && d[8] == '8' && d[9] == '9' && d[10] == 'a' && d[11] == 'b'
        && d[12] == 'c' && d[13] == 'd' && d[14] == 'e' && d[15] == 'f');
}

/// Distinct decimal digit values have distinct digits.
proof fn lemma_decimal_digit_injective(n: nat, m: nat)
    requires
        n < 10,
        m < 10,
        decimal_digit(n) == decimal_digit(m),
    ensures
        n == m,
{
    let d = seq!['0', '1', '2', '3', '4', '5', '6', '7', '8', '9'];
    assert(d[0] == '0' && d[1] == '1' && d[2] == '2' && d[3] == '3' && d[4] == '4' && d[5] == '5'
        && d[6] == '6' && d[7] == '7' && d[8] == '8' && d[9] == '9');
}

/// Each byte takes two hexadecimal digits.
proof fn lemma_hex_bytes_len(bytes: Seq<u8>)
    ensures
        hex_bytes(bytes).len() == 2 * bytes.len(),
    decreases bytes.len(),
{
    if bytes.len() > 0 {
        lemma_hex_bytes_len(bytes.drop_first());
    }
}

/// Hexadecimal notation tells byte strings of one length apart.
proof fn lemma_hex_bytes_injective(a: Seq<u8>, b: Seq<u8>)
    requires
        a.len() == b.len(),
        hex_bytes(a) == hex_bytes(b),
    ensures
        a == b,
    decreases a.len(),
{
    if a.len() > 0 {
        let ha = hex_bytes(a);
        let hb = hex_bytes(b);
        assert(ha[0] == hex_digit(a[0] as int / 16));
        assert(hb[0] == hex_digit(b[0] as int / 16));
        assert(ha[1] == hex_digit(a[0] as int % 16));
        assert(hb[1] == hex_digit(b[0] as int % 16));
        lemma_hex_digit_injective(a[0] as int / 16, b[0] as int / 16);
        lemma_hex_digit_injective(a[0] as int % 16, b[0] as int % 16);
        assert(a[0] == b[0]);
        assert(hex_bytes(a.drop_first()) =~= ha.skip(2));
        assert(hex_bytes(b.drop_first()) =~= hb.skip(2));
        lemma_hex_bytes_injective(a.drop_first(), b.drop_first());
        assert(a =~= b) by {
            assert forall|i: int| 0 <= i < a.len() implies a[i] == b[i] by {
                if i > 0 {
                    assert(a[i] == a.drop_first()[i - 1]);
                    assert(b[i] == b.drop_first()[i - 1]);
                }
            }
        }
    }
}

/// A decimal notation has one digit exactly for numbers below ten.
proof fn lemma_decimal_len(n: nat)
    ensures
        decimal(n).len() >= 1,
        decimal(n).len() == 1 <==> n < 10,
    decreases n,
{
    if n >= 10 {
        lemma_decimal_len(n / 10);
    }
}

/// Decimal notation tells numbers apart.
proof fn lemma_decimal_injective(n: nat, m: nat)
    requires
        decimal(n) == decimal(m),
    ensures
        n == m,
    decreases n,
{
    lemma_decimal_len(n);
    lemma_decimal_len(m);
    if n < 10 {
        assert(decimal(n)[0] == decimal_digit(n));
        assert(decimal(m)[0] == decimal_digit(m));
        lemma_decimal_digit_injective(n, m);
    } else {
        let dn = decimal(n);
        let dm = decimal(m);
        assert(dn.last() == decimal_digit(n % 10));
        assert(dm.last() == decimal_digit(m % 10));
        lemma_decimal_digit_injective(n % 10, m % 10);
        assert(decimal(n / 10) =~= dn.drop_last());
        assert(decimal(m / 10) =~= dm.drop_last());
        lemma_decimal_injective(n / 10, m / 10);
    }
}

/// Distinct logs get distinct idempotency keys: the key determines the
/// transaction hash and the log index. With the ledger's idempotent append,
/// this makes ingestion exactly-once.
pub proof fn law_idempotency_keys_identify_logs(e1: ChainEvent, e2: ChainEvent)
    requires
        prefixed_hex(e1.tx_hash.0@) + ":"@ + decimal(e1.log_index as nat) == prefixed_hex(
            e2.tx_hash.0@,
        ) + ":"@ + decimal(e2.log_index as nat),
    ensures
        e1.tx_hash == e2.tx_hash,
        e1.log_index == e2.log_index,
{
    let k1 = prefixed_hex(e1.tx_hash.0@) + ":"@ + decimal(e1.log_index as nat);
    let k2 = prefixed_hex(e2.tx_hash.0@) + ":"@ + decimal(e2.log_index as nat);
    lemma_hex_bytes_len(e1.tx_hash.0@);
    lemma_hex_bytes_len(e2.tx_hash.0@);
    let h1 = prefixed_hex(e1.tx_hash.0@);
    let h2 = prefixed_hex(e2.tx_hash.0@);
    assert(h1.len() == 66 && h2.len() == 66);
    assert(k1.subrange(0, 66) =~= h1);
    assert(k2.subrange(0, 66) =~= h2);
    assert(h1.skip(2) =~= hex_bytes(e1.tx_hash.0@));
    assert(h2.skip(2) =~= hex_bytes(e2.tx_hash.0@));
    lemma_hex_bytes_injective(e1.tx_hash.0@, e2.tx_hash.0@);
    assert(e1.tx_hash.0 == e2.tx_hash.0);
    reveal_strlit(":");
    assert(k1.skip(67) =~= decimal(e1.log_index as nat));
    assert(k2.skip(67) =~= decimal(e2.log_index as nat));
    lemma_decimal_injective(e1.log_index as nat, e2.log_index as nat);
}

/// Distinct chain addresses map to distinct ledger accounts and assets.
pub proof fn law_addresses_map_to_distinct_accounts(a1: Address, a2: Address)
    ensures
        account_of_spec(a1) == account_of_spec(a2) ==> a1 == a2,
        asset_of_spec(a1) == asset_of_spec(a2) ==> a1 == a2,
{
    lemma_hex_bytes_len(a1.0@);
    lemma_hex_bytes_len(a2.0@);
    if asset_of_spec(a1) == asset_of_spec(a2) {
        assert(prefixed_hex(a1.0@).skip(2) =~= hex_bytes(a1.0@));
        assert(prefixed_hex(a2.0@).skip(2) =~= hex_bytes(a2.0@));
        lemma_hex_bytes_injective(a1.0@, a2.0@);
        assert(a1.0 == a2.0);
    }
    if account_of_spec(a1) == account_of_spec(a2) {
        reveal_strlit("onchain:");
        assert(account_of_spec(a1).skip(8) =~= prefixed_hex(a1.0@));
        assert(account_of_spec(a2).skip(8) =~= prefixed_hex(a2.0@));
        assert(prefixed_hex(a1.0@).skip(2) =~= hex_bytes(a1.0@));
        assert(prefixed_hex(a2.0@).skip(2) =~= hex_bytes(a2.0@));
        lemma_hex_bytes_injective(a1.0@, a2.0@);
        assert(a1.0 == a2.0);
    }
}

/// Byte `i` of `bytes` is spelled by digits `2i` and `2i + 1` of its
/// hexadecimal notation, high nibble first.
proof fn lemma_hex_bytes_index(bytes: Seq<u8>, i: int)
    requires
        0 <= i < bytes.len(),
    ensures
        hex_bytes(bytes).len() == 2 * bytes.len(),
        hex_bytes(bytes)[2 * i] == hex_digit(bytes[i] as int / 16),
        hex_bytes(bytes)[2 * i + 1] == hex_digit(bytes[i] as int % 16),
    decreases bytes.len(),
{
    lemma_hex_bytes_len(bytes);
    lemma_hex_bytes_len(bytes.drop_first());
    let head = seq![hex_digit(bytes[0] as int / 16), hex_digit(bytes[0] as int % 16)];
    assert(hex_bytes(bytes) == head + hex_bytes(bytes.drop_first()));
    if i > 0 {
        lemma_hex_bytes_index(bytes.drop_first(), i - 1);
        assert(bytes.drop_first()[i - 1] == bytes[i]);
        assert(hex_bytes(bytes)[2 * i] == hex_bytes(bytes.drop_first())[2 * (i - 1)]);
        assert(hex_bytes(bytes)[2 * i + 1] == hex_bytes(bytes.drop_first())[2 * (i - 1) + 1]);
    }
}

/// `s` is `prefix` followed by `0x` and the lower-case hexadecimal digits of
/// `bytes`, byte by byte in order, high nibble first.
pub open spec fn spells_address(s: Seq<char>, prefix: Seq<char>, bytes: Seq<u8>) -> bool {
    let p = prefix.len() as int;
    &&& s.len() == p + 2 + 2 * bytes.len()
    &&& s.take(p) == prefix
    &&& s[p] == '0'
    &&& s[p + 1] == 'x'
    &&& forall|i: int|
        0 <= i < bytes.len() ==> s[p + 2 + 2 * i] == hex_digit(#[trigger] bytes[i] as int / 16)
            && s[p + 3 + 2 * i] == hex_digit(bytes[i] as int % 16)
}

/// `prefix` followed by the `0x` notation of `bytes` spells them in order.
proof fn lemma_prefixed_hex_spells(prefix: Seq<char>, bytes: Seq<u8>)
    ensures
        spells_address(prefix + prefixed_hex(bytes), prefix, bytes),
{
    let s = prefix + prefixed_hex(bytes);
    let p = prefix.len() as int;
    lemma_hex_bytes_len(bytes);
    assert(s.take(p) =~= prefix);
    assert forall|i: int| 0 <= i < bytes.len() implies s[p + 2 + 2 * i] == hex_digit(
        #[trigger] bytes[i] as int / 16,
    ) && s[p + 3 + 2 * i] == hex_digit(bytes[i] as int % 16) by {
        lemma_hex_bytes_index(bytes, i);
        assert(s[p + 2 + 2 * i] == hex_bytes(bytes)[2 * i]);
        assert(s[p + 3 + 2 * i] == hex_bytes(bytes)[2 * i + 1]);
    }
}

/// The mirror of a transfer debits the sender's account and credits the
/// receiver's, in the token's asset: the first leg's account is `onchain:`
/// and the `0x` notation of the sender's address bytes in order, the second
/// leg's that of the receiver, the asset of both is the `0x` notation of the
/// token's bytes in order, and the amounts are `-amount` and `amount`. These
/// are the names `account_of` and `asset_of` give.
pub proof fn law_mirror_legs_are_on_the_event_accounts(event: ChainEvent, amount: int)
    ensures
        ({
            let m = mirror_postings(event, amount);
            &&& m.len() == 2
            &&& spells_address(m[0].account, "onchain:"@, event.from.0@)
            &&& spells_address(m[1].account, "onchain:"@, event.to.0@)
            &&& spells_address(m[0].asset, Seq::empty(), event.token.0@)
            &&& spells_address(m[1].asset, Seq::empty(), event.token.0@)
            &&& m[0].account == account_of_spec(event.from)
            &&& m[1].account == account_of_spec(event.to)
            &&& m[0].asset == asset_of_spec(event.token) && m[1].asset == asset_of_spec(event.token)
            &&& m[0].amount == -amount && m[1].amount == amount
        }),
{
    lemma_prefixed_hex_spells("onchain:"@, event.from.0@);
    lemma_prefixed_hex_spells("onchain:"@, event.to.0@);
    lemma_prefixed_hex_spells(Seq::empty(), event.token.0@);
    assert(Seq::<char>::empty() + prefixed_hex(event.token.0@) =~= prefixed_hex(event.token.0@));
}

/// The mirror of a transfer debits the sender exactly what it credits the
/// receiver: it nets to zero in every asset.
pub proof fn law_mirror_entry_is_balanced(event: ChainEvent, amount: int)
    ensures
        is_balanced(mirror_postings(event, amount)),
{
    let pv = mirror_postings(event, amount);
    reveal_with_fuel(asset_total, 3);
    assert(pv.drop_last().drop_last() =~= Seq::<crate::ledger::posting::PostingView>::empty());
    assert(pv.drop_last().last() == pv[0]);
    assert forall|a: Seq<char>| #[trigger] asset_total(pv, a) == 0 by {
        assert(asset_total(pv.drop_last(), a) == asset_total(pv.drop_last().drop_last(), a) + if pv[0].asset
            == a {
            pv[0].amount
        } else {
            0
        });
    }
}

} // verus!
