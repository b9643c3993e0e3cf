use vstd::prelude::*;
use vstd::utf8::{
    encode_scalar, encode_utf8, encode_utf8_decode_utf8, encode_utf8_valid_utf8, is_ascii_chars,
    is_ascii_chars_encode_utf8,
};

use crate::decimal::{digit_char, digits, pow10};

use crate::history::{
    all_text, entry_is_text, history_of, label_of, labelled, labelled_all, role_of_key, turn_key, window_of,
    ASSISTANT_ROLE, HUMAN_ROLE, STAMP_DIGITS, bytes_precede, decimal_value, has_key_shape,
};

verus! {

/// One appended exchange: the stamp its keys carry, the human text and the
/// assistant text.
pub type Exchange = (nat, Seq<char>, Seq<char>);

/// The two entries that appending an exchange writes, as the bytes of the
/// keys and values that `insert_adjacency_pair` hands to the store.
pub open spec fn entries_of_exchange(x: Exchange) -> Seq<(Seq<u8>, Seq<u8>)> {
    seq![
        (encode_utf8(turn_key(x.0, HUMAN_ROLE)), encode_utf8(x.1)),
        (encode_utf8(turn_key(x.0, ASSISTANT_ROLE)), encode_utf8(x.2)),
    ]
}

/// The entries of a tree after a sequence of exchanges, in insertion order.
pub open spec fn entries_of_exchanges(xs: Seq<Exchange>) -> Seq<(Seq<u8>, Seq<u8>)>
    decreases xs.len(),
{
    if xs.len() == 0 {
        seq![]
    } else {
        entries_of_exchanges(xs.drop_last()) + entries_of_exchange(xs.last())
    }
}

/// The turns of a sequence of exchanges: human then assistant, in order.
pub open spec fn turns_of_exchanges(xs: Seq<Exchange>) -> Seq<(u8, Seq<char>)>
    decreases xs.len(),
{
    if xs.len() == 0 {
        seq![]
    } else {
        turns_of_exchanges(xs.drop_last()) + seq![
            (HUMAN_ROLE, xs.last().1),
            (ASSISTANT_ROLE, xs.last().2),
        ]
    }
}

/// The labelled window entries of a sequence of exchanges.
pub open spec fn labelled_exchanges(xs: Seq<Exchange>) -> Seq<(Seq<char>, Seq<char>)>
    decreases xs.len(),
{
    if xs.len() == 0 {
        seq![]
    } else {
        labelled_exchanges(xs.drop_last()) + seq![
            (label_of(HUMAN_ROLE), xs.last().1),
            (label_of(ASSISTANT_ROLE), xs.last().2),
        ]
    }
}

proof fn lemma_encode_concat(a: Seq<char>, b: Seq<char>)
    ensures
        encode_utf8(a + b) == encode_utf8(a) + encode_utf8(b),
    decreases a.len(),
{
    if a.len() == 0 {
        assert(a + b =~= b);
    } else {
        assert((a + b).drop_first() =~= a.drop_first() + b);
        lemma_encode_concat(a.drop_first(), b);
        assert(encode_utf8(a + b) =~= encode_utf8(a) + encode_utf8(b));
    }
}

proof fn lemma_key_role(stamp: nat, role: u8)
    requires
        role == HUMAN_ROLE || role == ASSISTANT_ROLE,
    ensures
        role_of_key(encode_utf8(turn_key(stamp, role))) == role,
{
    let k = turn_key(stamp, role);
    let c: char = if role == HUMAN_ROLE { '0' } else { '1' };
    let prefix = k.drop_last();
    assert(k =~= prefix + seq![c]);
    lemma_encode_concat(prefix, seq![c]);
    assert(seq![c].drop_first() =~= Seq::<char>::empty());
    let v: u32 = c as u32;
    assert(v == 48 || v == 49);
    assert((48u32 & 0x7F) as u8 == 48u8) by (bit_vector);
    assert((49u32 & 0x7F) as u8 == 49u8) by (bit_vector);
    assert(encode_scalar(v) == seq![v as u8]);
    assert(seq![c][0] == c);
    assert(encode_utf8(Seq::<char>::empty()) =~= Seq::<u8>::empty());
    assert(encode_utf8(seq![c]) == encode_scalar(v) + encode_utf8(seq![c].drop_first()));
    assert(encode_utf8(seq![c]) =~= seq![v as u8]);
}

proof fn lemma_exchange_entries(x: Exchange)
    ensures
        all_text(entries_of_exchange(x)),
        history_of(entries_of_exchange(x)) == seq![(HUMAN_ROLE, x.1), (ASSISTANT_ROLE, x.2)],
{
    let es = entries_of_exchange(x);
    lemma_key_role(x.0, HUMAN_ROLE);
    lemma_key_role(x.0, ASSISTANT_ROLE);
    encode_utf8_valid_utf8(turn_key(x.0, HUMAN_ROLE));
    encode_utf8_valid_utf8(turn_key(x.0, ASSISTANT_ROLE));
    encode_utf8_valid_utf8(x.1);
    encode_utf8_valid_utf8(x.2);
    encode_utf8_decode_utf8(x.1);
    encode_utf8_decode_utf8(x.2);
    assert(entry_is_text(es[0]));
    assert(entry_is_text(es[1]));
    assert(history_of(es) =~= seq![(HUMAN_ROLE, x.1), (ASSISTANT_ROLE, x.2)]);
}

/// Every sequence of appended exchanges reads back, in insertion order, as
/// exactly the appended turns, human and assistant alternating; none of the
/// written entries is rejected as corrupt.
pub proof fn lemma_history_of_appended_exchanges(xs: Seq<Exchange>)
    ensures
        all_text(entries_of_exchanges(xs)),
        history_of(entries_of_exchanges(xs)) == turns_of_exchanges(xs),
        forall|i: int|
            0 <= i < turns_of_exchanges(xs).len() ==> (#[trigger] turns_of_exchanges(xs)[i]).0 == (
            if i % 2 == 0 {
                HUMAN_ROLE
            } else {
                ASSISTANT_ROLE
            }),
    decreases xs.len(),
{
    if xs.len() > 0 {
        let init = xs.drop_last();
        lemma_history_of_appended_exchanges(init);
        lemma_exchange_entries(xs.last());
        let a = entries_of_exchanges(init);
        let b = entries_of_exchange(xs.last());
        lemma_entries_len(init);
        assert(history_of(a + b) =~= history_of(a) + history_of(b));
        assert forall|i: int| 0 <= i < (a + b).len() implies #[trigger] entry_is_text((a + b)[i]) by {
            if i < a.len() {
                assert((a + b)[i] == a[i]);
            } else {
                assert((a + b)[i] == b[i - a.len()]);
            }
        }
        let t = turns_of_exchanges(xs);
        let ti = turns_of_exchanges(init);
        assert forall|i: int| 0 <= i < t.len() implies (#[trigger] t[i]).0 == (if i % 2 == 0 {
            HUMAN_ROLE
        } else {
            ASSISTANT_ROLE
        }) by {
            if i < ti.len() {
                assert(t[i] == ti[i]);
            }
        }
    }
}

proof fn lemma_entries_len(xs: Seq<Exchange>)
    ensures
        entries_of_exchanges(xs).len() == 2 * xs.len(),
        turns_of_exchanges(xs).len() == 2 * xs.len(),
        labelled_exchanges(xs).len() == 2 * xs.len(),
    decreases xs.len(),
{
    if xs.len() > 0 {
        lemma_entries_len(xs.drop_last());
    }
}

proof fn lemma_entries_split(p: Seq<Exchange>, q: Seq<Exchange>)
    ensures
        entries_of_exchanges(p + q) == entries_of_exchanges(p) + entries_of_exchanges(q),
    decreases q.len(),
{
    if q.len() == 0 {
        assert(p + q =~= p);
        assert(entries_of_exchanges(p) + entries_of_exchanges(q) =~= entries_of_exchanges(p));
    } else {
        assert((p + q).drop_last() =~= p + q.drop_last());
        assert((p + q).last() == q.last());
        lemma_entries_split(p, q.drop_last());
        assert(entries_of_exchanges(p + q) =~= entries_of_exchanges(p) + entries_of_exchanges(q));
    }
}

proof fn lemma_labelled_entries(xs: Seq<Exchange>)
    ensures
        labelled_all(entries_of_exchanges(xs)) == labelled_exchanges(xs),
    decreases xs.len(),
{
    if xs.len() > 0 {
        let x = xs.last();
        lemma_labelled_entries(xs.drop_last());
        lemma_key_role(x.0, HUMAN_ROLE);
        lemma_key_role(x.0, ASSISTANT_ROLE);
        encode_utf8_decode_utf8(x.1);
        encode_utf8_decode_utf8(x.2);
        let a = entries_of_exchanges(xs.drop_last());
        let b = entries_of_exchange(x);
        assert(labelled_all(a + b) =~= labelled_all(a) + labelled_all(b));
        assert(labelled(b[0]) == (label_of(HUMAN_ROLE), x.1));
        assert(labelled(b[1]) == (label_of(ASSISTANT_ROLE), x.2));
        assert(labelled_all(b) =~= seq![(label_of(HUMAN_ROLE), x.1), (label_of(ASSISTANT_ROLE), x.2)]);
    }
}

/// The adjacency window after a sequence of exchanges is the last two of
/// them (all of them if fewer), labelled, in chronological order: after one
/// exchange its two turns, human first; after three, the last two exchanges.
pub proof fn lemma_window_of_appended_exchanges(xs: Seq<Exchange>)
    ensures
        window_of(entries_of_exchanges(xs)) == labelled_exchanges(
            xs.subrange(if xs.len() > 2 { xs.len() - 2 } else { 0 }, xs.len() as int),
        ),
        xs.len() == 1 ==> window_of(entries_of_exchanges(xs)) == seq![
            ("### Human"@, xs[0].1),
            ("### Pana"@, xs[0].2),
        ],
        xs.len() == 3 ==> window_of(entries_of_exchanges(xs)) == seq![
            ("### Human"@, xs[1].1),
            ("### Pana"@, xs[1].2),
            ("### Human"@, xs[2].1),
            ("### Pana"@, xs[2].2),
        ],
{
    let start: int = if xs.len() > 2 { xs.len() - 2 } else { 0 };
    let p = xs.subrange(0, start);
    let q = xs.subrange(start, xs.len() as int);
    assert(xs =~= p + q);
    lemma_entries_split(p, q);
    lemma_entries_len(p);
    lemma_entries_len(q);
    lemma_entries_len(xs);
    let es = entries_of_exchanges(xs);
    let tail_start: int = if es.len() > 4 { es.len() - 4 } else { 0 };
    assert(tail_start == 2 * start);
    assert(es.subrange(tail_start, es.len() as int) =~= entries_of_exchanges(q));
    lemma_labelled_entries(q);
    if xs.len() == 1 {
        assert(q =~= xs);
        assert(q.drop_last().len() == 0);
        assert(labelled_exchanges(q) =~= seq![("### Human"@, xs[0].1), ("### Pana"@, xs[0].2)]);
    }
    if xs.len() == 3 {
        assert(q.drop_last().drop_last().len() == 0);
        assert(q.drop_last().last() == xs[1]);
        assert(q.last() == xs[2]);
        assert(labelled_exchanges(q.drop_last()) =~= seq![("### Human"@, xs[1].1), ("### Pana"@, xs[1].2)]);
        assert(labelled_exchanges(q) =~= seq![
            ("### Human"@, xs[1].1),
            ("### Pana"@, xs[1].2),
            ("### Human"@, xs[2].1),
            ("### Pana"@, xs[2].2),
        ]);
    }
}

/// The same order on characters.
spec fn chars_precede_at(a: Seq<char>, b: Seq<char>, i: int) -> bool {
    0 <= i < a.len() && i < b.len() && a.take(i) == b.take(i) && (a[i] as u32) < (b[i] as u32)
}

proof fn lemma_digit_char(d: nat)
    requires
        d < 10,
    ensures
        digit_char(d) as u32 == 48 + d,
        digit_char(d) as u8 == 48 + d,
{
}

proof fn lemma_digits_shape(n: nat, w: nat)
    requires
        1 <= w,
        n < pow10(w),
    ensures
        digits(n, w).len() == w,
        forall|i: int| 0 <= i < w ==> 48 <= #[trigger] (digits(n, w)[i] as u32) <= 57,
        is_ascii_chars(digits(n, w)),
    decreases w,
{
    if n < 10 && w <= 1 {
        lemma_digit_char(n);
    } else {
        let rest = (w - 1) as nat;
        assert(n / 10 < pow10(rest)) by (nonlinear_arith)
            requires
                n < 10 * pow10(rest),
        ;
        if rest >= 1 {
            lemma_digits_shape(n / 10, rest);
        } else {
            assert(pow10(0) == 1);
            assert(n < 10);
        }
        lemma_digit_char(n % 10);
        let d = digits(n, w);
        assert forall|i: int| 0 <= i < w implies 48 <= #[trigger] (d[i] as u32) <= 57 by {
            if i < rest {
                assert(d[i] == digits(n / 10, rest)[i]);
            }
        }
        assert forall|i: int| 0 <= i < d.len() implies '\0' <= #[trigger] d[i] <= '\u{7f}' by {
            if i < rest {
                assert(d[i] == digits(n / 10, rest)[i]);
            } else {
                assert(d[i] == digit_char(n % 10));
            }
        }
    }
}

proof fn lemma_digits_order(n: nat, m: nat, w: nat) -> (i: int)
    requires
        1 <= w,
        n < m < pow10(w),
    ensures
        chars_precede_at(digits(n, w), digits(m, w), i),
    decreases w,
{
    lemma_digits_shape(n, w);
    lemma_digits_shape(m, w);
    if w == 1 {
        assert(pow10(1) == 10) by {
            assert(pow10(0) == 1);
        }
        lemma_digit_char(n);
        lemma_digit_char(m);
        assert(digits(n, w).take(0) =~= digits(m, w).take(0));
        0
    } else {
        let rest = (w - 1) as nat;
        assert(n / 10 < pow10(rest) && m / 10 < pow10(rest)) by (nonlinear_arith)
            requires
                n < m,
                m < 10 * pow10(rest),
        ;
        let dn = digits(n, w);
        let dm = digits(m, w);
        let pn = digits(n / 10, rest);
        let pm = digits(m / 10, rest);
        assert(dn == pn.push(digit_char(n % 10)));
        assert(dm == pm.push(digit_char(m % 10)));
        lemma_digits_shape(n / 10, rest);
        if n / 10 < m / 10 {
            let j = lemma_digits_order(n / 10, m / 10, rest);
            assert(dn.take(j) =~= pn.take(j));
            assert(dm.take(j) =~= pm.take(j));
            j
        } else {
            assert(n / 10 == m / 10) by (nonlinear_arith)
                requires
                    n < m,
                    !(n / 10 < m / 10),
            ;
            assert(n % 10 < m % 10) by (nonlinear_arith)
                requires
                    n < m,
                    n / 10 == m / 10,
            ;
            lemma_digit_char(n % 10);
            lemma_digit_char(m % 10);
            assert(dn.take(rest as int) =~= pn);
            assert(dm.take(rest as int) =~= pm);
            rest as int
        }
    }
}

proof fn lemma_key_shape(stamp: nat, role: u8)
    requires
        stamp < pow10(STAMP_DIGITS as nat),
    ensures
        turn_key(stamp, role).len() == STAMP_DIGITS + 1,
        is_ascii_chars(turn_key(stamp, role)),
{
    lemma_digits_shape(stamp, STAMP_DIGITS as nat);
    let k = turn_key(stamp, role);
    assert forall|i: int| 0 <= i < k.len() implies '\0' <= #[trigger] k[i] <= '\u{7f}' by {
        if i < STAMP_DIGITS {
            assert(k[i] == digits(stamp, STAMP_DIGITS as nat)[i]);
        } else {
            assert(k[i] == '0' || k[i] == '1');
        }
    }
}

proof fn lemma_bytes_follow_chars(a: Seq<char>, b: Seq<char>, i: int)
    requires
        is_ascii_chars(a),
        is_ascii_chars(b),
        chars_precede_at(a, b, i),
    ensures
        bytes_precede(encode_utf8(a), encode_utf8(b)),
{
    is_ascii_chars_encode_utf8(a);
    is_ascii_chars_encode_utf8(b);
    let ea = encode_utf8(a);
    let eb = encode_utf8(b);
    assert forall|j: int| 0 <= j < i implies ea.take(i)[j] == eb.take(i)[j] by {
        assert(a.take(i)[j] == b.take(i)[j]);
        assert(a[j] == b[j]);
    }
    assert(ea.take(i) =~= eb.take(i));
    let ca = a[i] as u32;
    let cb = b[i] as u32;
    assert(ca < 128 && cb < 128);
    assert(ca < cb);
    assert((ca as u8) < (cb as u8)) by (bit_vector)
        requires
            ca < 128,
            cb < 128,
            ca < cb,
    ;
    assert(a[i] as u8 == ca as u8);
    assert(b[i] as u8 == cb as u8);
}

/// Keys sort as their turns were written: the human turn of an exchange
/// before its assistant turn, and every turn of an exchange before every
/// turn of one with a later stamp. So a scan in key order returns the turns
/// in insertion order when each exchange gets a later stamp than the last.
pub proof fn lemma_turn_keys_ordered(s1: nat, r1: u8, s2: nat, r2: u8)
    requires
        s1 <= s2 < pow10(STAMP_DIGITS as nat),
        s1 < s2 || (r1 == HUMAN_ROLE && r2 == ASSISTANT_ROLE),
    ensures
        bytes_precede(encode_utf8(turn_key(s1, r1)), encode_utf8(turn_key(s2, r2))),
{
    lemma_key_shape(s1, r1);
    lemma_key_shape(s2, r2);
    let k1 = turn_key(s1, r1);
    let k2 = turn_key(s2, r2);
    let w = STAMP_DIGITS as nat;
    if s1 < s2 {
        let i = lemma_digits_order(s1, s2, w);
        lemma_digits_shape(s1, w);
        lemma_digits_shape(s2, w);
        assert(k1.take(i) =~= digits(s1, w).take(i));
        assert(k2.take(i) =~= digits(s2, w).take(i));
        lemma_bytes_follow_chars(k1, k2, i);
    } else {
        lemma_digits_shape(s1, w);
        assert(k1.take(w as int) =~= k2.take(w as int));
        lemma_bytes_follow_chars(k1, k2, w as int);
    }
}

/// Every stamp a `u64` holds fits the keys' fixed width.
pub proof fn lemma_u64_stamp_fits(stamp: u64)
    ensures
        (stamp as nat) < pow10(STAMP_DIGITS as nat),
{
    reveal_with_fuel(pow10, 21);
    assert(pow10(STAMP_DIGITS as nat) == 100000000000000000000nat);
}

proof fn lemma_digits_value(n: nat, w: nat)
    requires
        1 <= w,
        n < pow10(w),
    ensures
        decimal_value(Seq::new(w, |i: int| digits(n, w)[i] as u8)) == n,
    decreases w,
{
    lemma_digits_shape(n, w);
    let b = Seq::new(w, |i: int| digits(n, w)[i] as u8);
    if w == 1 {
        assert(pow10(1) == 10) by {
            assert(pow10(0) == 1);
        }
        lemma_digit_char(n);
        assert(b.drop_last() =~= Seq::<u8>::empty());
        assert(digits(n, w) == seq![digit_char(n)]);
        assert(b.last() == digit_char(n) as u8);
        assert(b.last() == (48 + n) as u8);
        assert(decimal_value(b.drop_last()) == 0);
        assert(decimal_value(b) == decimal_value(b.drop_last()) * 10 + (b.last() - 48) as nat);
    } else {
        let rest = (w - 1) as nat;
        assert(n / 10 < pow10(rest)) by (nonlinear_arith)
            requires
                n < 10 * pow10(rest),
        ;
        lemma_digits_value(n / 10, rest);
        lemma_digits_shape(n / 10, rest);
        let p = digits(n / 10, rest);
        assert(digits(n, w) == p.push(digit_char(n % 10)));
        assert(b.drop_last() =~= Seq::new(rest, |i: int| p[i] as u8));
        lemma_digit_char(n % 10);
        assert(b.last() == digit_char(n % 10) as u8);
        assert(b.last() == (48 + n % 10) as u8);
        assert(decimal_value(b.drop_last()) == n / 10);
        assert(decimal_value(b) == decimal_value(b.drop_last()) * 10 + (b.last() - 48) as nat);
        assert((n / 10) * 10 + n % 10 == n) by (nonlinear_arith);
    }
}

/// A written key reads back as the stamp it was written with: it has the
/// shape of a turn key and its twenty leading digits spell the stamp.
pub proof fn lemma_key_stamp_round_trip(stamp: u64, role: u8)
    ensures
        has_key_shape(encode_utf8(turn_key(stamp as nat, role))),
        decimal_value(encode_utf8(turn_key(stamp as nat, role)).take(STAMP_DIGITS as int)) == stamp,
{
    lemma_u64_stamp_fits(stamp);
    let w = STAMP_DIGITS as nat;
    let k = turn_key(stamp as nat, role);
    lemma_key_shape(stamp as nat, role);
    lemma_digits_shape(stamp as nat, w);
    is_ascii_chars_encode_utf8(k);
    let e = encode_utf8(k);
    assert forall|i: int| 0 <= i < STAMP_DIGITS implies 48 <= #[trigger] e[i] <= 57 by {
        assert(k[i] == digits(stamp as nat, w)[i]);
        let c = k[i] as u32;
        assert(48 <= c <= 57);
        assert(48 <= (c as u8) <= 57) by (bit_vector)
            requires
                48 <= c <= 57,
        ;
    }
    assert(e.take(STAMP_DIGITS as int) =~= Seq::new(w, |i: int| digits(stamp as nat, w)[i] as u8));
    lemma_digits_value(stamp as nat, w);
}

/// All bytes are ASCII decimal digits.
spec fn all_digits(a: Seq<u8>) -> bool {
    forall|i: int| 0 <= i < a.len() ==> 48 <= #[trigger] a[i] <= 57
}

proof fn lemma_digit_split(a: Seq<u8>)
    requires
        a.len() > 0,
        all_digits(a),
    ensures
        all_digits(a.drop_last()),
        decimal_value(a.drop_last()) == decimal_value(a) / 10,
        (a.last() - 48) as nat == decimal_value(a) % 10,
{
    let p = decimal_value(a.drop_last());
    let d = (a.last() - 48) as nat;
    assert(a.last() == a[a.len() - 1]);
    assert(d < 10);
    assert(decimal_value(a) == p * 10 + d);
    assert((p * 10 + d) / 10 == p && (p * 10 + d) % 10 == d) by (nonlinear_arith)
        requires
            d < 10,
    ;
    assert forall|i: int| 0 <= i < a.drop_last().len() implies 48 <= #[trigger] a.drop_last()[i]
        <= 57 by {
        assert(a.drop_last()[i] == a[i]);
    }
}

proof fn lemma_digits_equal(a: Seq<u8>, b: Seq<u8>)
    requires
        a.len() == b.len(),
        all_digits(a),
        all_digits(b),
        decimal_value(a) == decimal_value(b),
    ensures
        a == b,
    decreases a.len(),
{
    if a.len() > 0 {
        lemma_digit_split(a);
        lemma_digit_split(b);
        lemma_digits_equal(a.drop_last(), b.drop_last());
        assert(a.last() == b.last());
        assert(a =~= a.drop_last().push(a.last()));
        assert(b =~= b.drop_last().push(b.last()));
    }
}

proof fn lemma_digits_precede(a: Seq<u8>, b: Seq<u8>) -> (i: int)
    requires
        a.len() == b.len(),
        all_digits(a),
        all_digits(b),
        decimal_value(a) < decimal_value(b),
    ensures
        0 <= i < a.len() && a.take(i) == b.take(i) && a[i] < b[i],
    decreases a.len(),
{
    if a.len() == 0 {
        assert(false);
        0
    } else {
        lemma_digit_split(a);
        lemma_digit_split(b);
        let pa = a.drop_last();
        let pb = b.drop_last();
        let va = decimal_value(a);
        let vb = decimal_value(b);
        if decimal_value(pa) < decimal_value(pb) {
            let j = lemma_digits_precede(pa, pb);
            assert(a.take(j) =~= pa.take(j));
            assert(b.take(j) =~= pb.take(j));
            assert(a[j] == pa[j] && b[j] == pb[j]);
            j
        } else {
            assert(va / 10 >= vb / 10);
            assert(va / 10 == vb / 10) by (nonlinear_arith)
                requires
                    va < vb,
                    va / 10 >= vb / 10,
            ;
            assert(va % 10 < vb % 10) by (nonlinear_arith)
                requires
                    va < vb,
                    va / 10 == vb / 10,
            ;
            lemma_digits_equal(pa, pb);
            assert(a.take(a.len() - 1) =~= pa);
            assert(b.take(b.len() - 1) =~= pb);
            a.len() - 1
        }
    }
}

/// Any stored key in the shape of a turn key whose stamp is smaller than
/// `stamp` sorts before both keys of an exchange stamped `stamp`. With the
/// stamp a finished run takes, moved past the tree's newest stamp, its
/// exchange sorts after the tree's newest turn.
pub proof fn lemma_appended_keys_follow(k: Seq<u8>, stamp: u64, role: u8)
    requires
        has_key_shape(k),
        decimal_value(k.take(STAMP_DIGITS as int)) < stamp,
    ensures
        bytes_precede(k, encode_utf8(turn_key(stamp as nat, role))),
{
    lemma_key_stamp_round_trip(stamp, role);
    let e = encode_utf8(turn_key(stamp as nat, role));
    let a = k.take(STAMP_DIGITS as int);
    let b = e.take(STAMP_DIGITS as int);
    assert forall|i: int| 0 <= i < a.len() implies 48 <= #[trigger] a[i] <= 57 by {
        assert(a[i] == k[i]);
    }
    assert forall|i: int| 0 <= i < b.len() implies 48 <= #[trigger] b[i] <= 57 by {
        assert(b[i] == e[i]);
    }
    let i = lemma_digits_precede(a, b);
    assert(k.take(i) =~= a.take(i));
    assert(e.take(i) =~= b.take(i));
    assert(k[i] == a[i] && e[i] == b[i]);
}

} // verus!
