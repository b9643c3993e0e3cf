use std::collections::VecDeque;

use vstd::prelude::*;
use vstd::string::StringExecFns;
use vstd::utf8::{decode_utf8, valid_utf8};

use crate::decimal::{digits, pow10, push_digits};
use crate::error::CoreError;

verus! {

/// The byte that ends the key of a human turn.
pub const HUMAN_MARKER: u8 = 48;

/// Role code of a human turn in a reconstructed history.
pub const HUMAN_ROLE: u8 = 0;

/// Role code of an assistant turn in a reconstructed history.
pub const ASSISTANT_ROLE: u8 = 1;

/// A stored entry as raw bytes: key, then value.
pub type RawEntry = (Vec<u8>, Vec<u8>);

/// `a` sorts strictly before `b` byte-wise: they agree up to a position
/// where `a` holds the smaller byte.
pub open spec fn bytes_precede(a: Seq<u8>, b: Seq<u8>) -> bool {
    exists|i: int| 0 <= i < a.len() && i < b.len() && a.take(i) == b.take(i) && a[i] < b[i]
}

/// `a` sorts strictly before `b` in the order of byte slices: they differ
/// first where `a` holds the smaller byte, or `a` is a proper prefix of `b`.
pub open spec fn key_less(a: Seq<u8>, b: Seq<u8>) -> bool {
    bytes_precede(a, b) || (a.len() < b.len() && a == b.take(a.len() as int))
}

/// The keys of the entries strictly ascend.
pub open spec fn keys_ascending(es: Seq<(Seq<u8>, Seq<u8>)>) -> bool {
    forall|i: int, j: int| 0 <= i < j < es.len() ==> key_less(#[trigger] es[i].0, #[trigger] es[j].0)
}

/// The keys of the entries strictly descend.
pub open spec fn keys_descending(es: Seq<(Seq<u8>, Seq<u8>)>) -> bool {
    forall|i: int, j: int| 0 <= i < j < es.len() ==> key_less(#[trigger] es[j].0, #[trigger] es[i].0)
}

/// The bytes of a raw entry.
pub open spec fn entry_view(e: RawEntry) -> (Seq<u8>, Seq<u8>) {
    (e.0@, e.1@)
}

pub open spec fn entries_view(es: Seq<RawEntry>) -> Seq<(Seq<u8>, Seq<u8>)> {
    es.map_values(|e: RawEntry| entry_view(e))
}

/// The role a key encodes: human when its last character is `0`, assistant
/// otherwise. On valid UTF-8 the last character is `0` exactly when the last
/// byte is, since no other character's encoding ends in that byte.
pub open spec fn role_of_key(k: Seq<u8>) -> u8 {
    if k.len() > 0 && k.last() == HUMAN_MARKER {
        HUMAN_ROLE
    } else {
        ASSISTANT_ROLE
    }
}

/// Both key and value of an entry are valid UTF-8.
pub open spec fn entry_is_text(e: (Seq<u8>, Seq<u8>)) -> bool {
    valid_utf8(e.0) && valid_utf8(e.1)
}

pub open spec fn all_text(es: Seq<(Seq<u8>, Seq<u8>)>) -> bool {
    forall|i: int| 0 <= i < es.len() ==> #[trigger] entry_is_text(es[i])
}

/// One turn of the history: its role code and its text.
pub open spec fn turn_of(e: (Seq<u8>, Seq<u8>)) -> (u8, Seq<char>) {
    (role_of_key(e.0), decode_utf8(e.1))
}

/// The history that a scan in key order yields.
pub open spec fn history_of(es: Seq<(Seq<u8>, Seq<u8>)>) -> Seq<(u8, Seq<char>)> {
    es.map_values(|e: (Seq<u8>, Seq<u8>)| turn_of(e))
}

pub open spec fn turns_view(h: Seq<(u8, String)>) -> Seq<(u8, Seq<char>)> {
    h.map_values(|t: (u8, String)| (t.0, t.1@))
}

/// Relies on std::str::from_utf8: it accepts exactly the valid UTF-8 byte
/// sequences and yields the characters they encode.
#[verifier::external_body]
fn decode_text(b: &[u8]) -> (r: Option<String>)
    ensures
        r is Some <==> valid_utf8(b@),
        r matches Some(s) ==> s@ == decode_utf8(b@),
{
    std::str::from_utf8(b).ok().map(|s| s.to_owned())
}

/// The role code of a stored key, which must be text.
pub fn key_role(key: &[u8]) -> (r: Result<u8, CoreError>)
    ensures
        r is Ok <==> valid_utf8(key@),
        r matches Ok(c) ==> c == role_of_key(key@),
        r matches Err(e) ==> e == CoreError::StorageCorrupt,
{
    match decode_text(key) {
        None => Err(CoreError::StorageCorrupt),
        Some(_) => {
            if key.len() > 0 && key[key.len() - 1] == HUMAN_MARKER {
                Ok(HUMAN_ROLE)
            } else {
                Ok(ASSISTANT_ROLE)
            }
        },
    }
}

/// Reconstructs the history from the entries of a tree in key order. Fails
/// with `StorageCorrupt` when any key or value is not text.
pub fn history_from_entries(entries: &Vec<RawEntry>) -> (r: Result<Vec<(u8, String)>, CoreError>)
    ensures
        r is Ok <==> all_text(entries_view(entries@)),
        r matches Ok(h) ==> turns_view(h@) == history_of(entries_view(entries@)),
        r matches Err(e) ==> e == CoreError::StorageCorrupt,
{
    let ghost ev = entries_view(entries@);
    let mut out: Vec<(u8, String)> = Vec::new();
    let mut i: usize = 0;
    while i < entries.len()
        invariant
            i <= entries.len(),
            ev == entries_view(entries@),
            all_text(ev.take(i as int)),
            turns_view(out@) == history_of(ev.take(i as int)),
        decreases entries.len() - i,
    {
        let e = &entries[i];
        assert(ev[i as int] == entry_view(entries@[i as int]));
        let role = match key_role(e.0.as_slice()) {
            Ok(c) => c,
            Err(err) => {
                assert(!entry_is_text(ev[i as int]));
                return Err(err);
            },
        };
        let text = match decode_text(e.1.as_slice()) {
            Some(s) => s,
            None => {
                assert(!entry_is_text(ev[i as int]));
                return Err(CoreError::StorageCorrupt);
            },
        };
        let ghost before = out@;
        assert(turn_of(ev[i as int]) == (role, text@));
        out.push((role, text));
        proof {
            assert(ev.take(i + 1) =~= ev.take(i as int).push(ev[i as int]));
            assert(out@ =~= before.push((role, text)));
            assert(turns_view(out@) =~= turns_view(before).push((role, text@)));
            assert(history_of(ev.take(i + 1)) =~= history_of(ev.take(i as int)).push(turn_of(ev[i as int])));
            assert forall|j: int| 0 <= j < i + 1 implies #[trigger] entry_is_text(ev.take(i + 1)[j]) by {
                if j < i {
                    assert(ev.take(i + 1)[j] == ev.take(i as int)[j]);
                }
            }
        }
        i = i + 1;
    }
    assert(ev.take(i as int) =~= ev);
    Ok(out)
}

/// How many raw entries the adjacency window holds: the last two exchanges.
pub const WINDOW_ENTRIES: usize = 4;

/// The speaker label a role code carries in a prompt.
pub open spec fn label_of(role: u8) -> Seq<char> {
    if role == HUMAN_ROLE {
        "### Human"@
    } else {
        "### Pana"@
    }
}

/// An entry as it stands in the adjacency window: label and text.
pub open spec fn labelled(e: (Seq<u8>, Seq<u8>)) -> (Seq<char>, Seq<char>) {
    (label_of(role_of_key(e.0)), decode_utf8(e.1))
}

pub open spec fn labelled_all(es: Seq<(Seq<u8>, Seq<u8>)>) -> Seq<(Seq<char>, Seq<char>)> {
    es.map_values(|e: (Seq<u8>, Seq<u8>)| labelled(e))
}

/// The adjacency window of a tree whose entries in key order are `es`: the
/// last (at most) four entries, labelled, oldest first.
pub open spec fn window_of(es: Seq<(Seq<u8>, Seq<u8>)>) -> Seq<(Seq<char>, Seq<char>)> {
    let start = if es.len() > WINDOW_ENTRIES { es.len() - WINDOW_ENTRIES } else { 0 };
    labelled_all(es.subrange(start, es.len() as int))
}

/// The entries a newest-first scan yields when it stops after `n` of them.
pub open spec fn newest_first(es: Seq<(Seq<u8>, Seq<u8>)>, n: nat) -> Seq<(Seq<u8>, Seq<u8>)> {
    let r = es.reverse();
    if r.len() > n { r.take(n as int) } else { r }
}

pub open spec fn strings_view(w: Seq<(String, String)>) -> Seq<(Seq<char>, Seq<char>)> {
    w.map_values(|p: (String, String)| (p.0@, p.1@))
}

/// The label of a role code, as an owned string.
pub fn role_label(role: u8) -> (r: String)
    ensures
        r@ == label_of(role),
{
    if role == HUMAN_ROLE {
        "### Human".to_owned()
    } else {
        "### Pana".to_owned()
    }
}

/// Builds the adjacency window from the newest entries of a tree, given
/// newest first: labels each one and restores chronological order. Fails
/// with `StorageCorrupt` when any key or value is not text.
pub fn window_from_latest(latest: &Vec<RawEntry>) -> (r: Result<VecDeque<(String, String)>, CoreError>)
    ensures
        r is Ok <==> all_text(entries_view(latest@)),
        r matches Ok(w) ==> strings_view(w@) == labelled_all(entries_view(latest@)).reverse(),
        r matches Err(e) ==> e == CoreError::StorageCorrupt,
{
    let ghost ev = entries_view(latest@);
    let mut out: VecDeque<(String, String)> = VecDeque::new();
    let mut i: usize = 0;
    while i < latest.len()
        invariant
            i <= latest.len(),
            ev == entries_view(latest@),
            all_text(ev.take(i as int)),
            strings_view(out@) == labelled_all(ev.take(i as int)).reverse(),
        decreases latest.len() - i,
    {
        let e = &latest[i];
        assert(ev[i as int] == entry_view(latest@[i as int]));
        let role = match key_role(e.0.as_slice()) {
            Ok(c) => c,
            Err(err) => {
                assert(!entry_is_text(ev[i as int]));
                return Err(err);
            },
        };
        let text = match decode_text(e.1.as_slice()) {
            Some(s) => s,
            None => {
                assert(!entry_is_text(ev[i as int]));
                return Err(CoreError::StorageCorrupt);
            },
        };
        let label = role_label(role);
        let ghost before = out@;
        assert(labelled(ev[i as int]) == (label@, text@));
        out.push_front((label, text));
        proof {
            assert(ev.take(i + 1) =~= ev.take(i as int).push(ev[i as int]));
            assert(labelled_all(ev.take(i + 1)) =~= labelled_all(ev.take(i as int)).push(labelled(ev[i as int])));
            assert(strings_view(out@) =~= seq![(label@, text@)] + strings_view(before));
            assert(strings_view(out@) =~= labelled_all(ev.take(i + 1)).reverse());
            assert forall|j: int| 0 <= j < i + 1 implies #[trigger] entry_is_text(ev.take(i + 1)[j]) by {
                if j < i {
                    assert(ev.take(i + 1)[j] == ev.take(i as int)[j]);
                }
            }
        }
        i = i + 1;
    }
    assert(ev.take(i as int) =~= ev);
    Ok(out)
}

/// Reversing the newest-first scan of a tree's last four entries gives its
/// adjacency window: the last (at most) four entries in chronological order.
pub proof fn lemma_window_from_newest_first(es: Seq<(Seq<u8>, Seq<u8>)>)
    ensures
        labelled_all(newest_first(es, WINDOW_ENTRIES as nat)).reverse() == window_of(es),
{
    let start = if es.len() > WINDOW_ENTRIES { es.len() - WINDOW_ENTRIES } else { 0 };
    let lhs = labelled_all(newest_first(es, WINDOW_ENTRIES as nat)).reverse();
    let rhs = window_of(es);
    assert(lhs.len() == rhs.len());
    assert forall|j: int| 0 <= j < lhs.len() implies lhs[j] == rhs[j] by {
        assert(es.subrange(start, es.len() as int)[j] == es[start + j]);
    }
    assert(lhs =~= rhs);
}

/// How many digits the stamp of a turn key has: enough for any `u64`.
pub const STAMP_DIGITS: u64 = 20;

/// The key of a turn: its stamp as a fixed-width decimal, then the role's
/// marker character.
pub open spec fn turn_key(stamp: nat, role: u8) -> Seq<char> {
    digits(stamp, STAMP_DIGITS as nat).push(if role == HUMAN_ROLE { '0' } else { '1' })
}

/// Formats the key of a turn.
pub fn make_turn_key(stamp: u64, role: u8) -> (r: String)
    ensures
        r@ == turn_key(stamp as nat, role),
{
    proof {
        reveal_strlit("0");
        reveal_strlit("1");
    }
    let mut s = String::new();
    push_digits(&mut s, stamp, STAMP_DIGITS);
    if role == HUMAN_ROLE {
        s.append("0");
    } else {
        s.append("1");
    }
    assert(s@ =~= turn_key(stamp as nat, role));
    s
}

/// The prompt context a window gives: each entry's label and text on lines
/// of their own, oldest first.
pub open spec fn context_of(w: Seq<(Seq<char>, Seq<char>)>) -> Seq<char>
    decreases w.len(),
{
    if w.len() == 0 {
        seq![]
    } else {
        context_of(w.drop_last()) + w.last().0 + seq!['\n'] + w.last().1 + seq!['\n']
    }
}

/// The prompt for a new message: the window's context, then the message as
/// a human turn, then the assistant's label that the reply continues.
pub open spec fn prompt_of(w: Seq<(Seq<char>, Seq<char>)>, message: Seq<char>) -> Seq<char> {
    context_of(w) + "### Human\n"@ + message + "\n### Pana\n"@
}

/// Builds the prompt for a new message from the adjacency window.
pub fn build_prompt(window: &VecDeque<(String, String)>, message: &str) -> (r: String)
    ensures
        r@ == prompt_of(strings_view(window@), message@),
{
    proof {
        reveal_strlit("\n");
    }
    let ghost wv = strings_view(window@);
    let mut out = String::new();
    let mut i: usize = 0;
    while i < window.len()
        invariant
            i <= window@.len(),
            wv == strings_view(window@),
            out@ == context_of(wv.take(i as int)),
        decreases window@.len() - i,
    {
        let entry = &window[i];
        let ghost prev = out@;
        proof {
            reveal_strlit("\n");
        }
        out.append(entry.0.as_str());
        out.append("\n");
        out.append(entry.1.as_str());
        out.append("\n");
        proof {
            let t = wv.take(i + 1);
            assert(t.drop_last() =~= wv.take(i as int));
            assert(t.last() == (entry.0@, entry.1@));
            assert(out@ =~= prev + entry.0@ + seq!['\n'] + entry.1@ + seq!['\n']);
            assert(context_of(t) == context_of(t.drop_last()) + t.last().0 + seq!['\n'] + t.last().1
                + seq!['\n']);
        }
        i = i + 1;
    }
    assert(wv.take(i as int) =~= wv);
    out.append("### Human\n");
    out.append(message);
    out.append("\n### Pana\n");
    out
}

/// The number that a sequence of ASCII decimal digits spells.
pub open spec fn decimal_value(s: Seq<u8>) -> nat
    decreases s.len(),
{
    if s.len() == 0 {
        0
    } else {
        decimal_value(s.drop_last()) * 10 + (s.last() - 48) as nat
    }
}

/// A key has the shape of a turn key: twenty decimal digits and a marker.
pub open spec fn has_key_shape(k: Seq<u8>) -> bool {
    k.len() == STAMP_DIGITS + 1 && forall|i: int| 0 <= i < STAMP_DIGITS ==> 48 <= #[trigger] k[i] <= 57
}

/// The stamp a stored key carries: its twenty leading digits, when the key
/// has the shape of a turn key and the stamp fits a `u64`.
pub fn stamp_of_key(key: &[u8]) -> (r: Option<u64>)
    ensures
        r is Some <==> has_key_shape(key@) && decimal_value(key@.take(STAMP_DIGITS as int))
            <= u64::MAX,
        r matches Some(v) ==> v == decimal_value(key@.take(STAMP_DIGITS as int)),
{
    if key.len() != 21 {
        return None;
    }
    proof {
        reveal_with_fuel(pow10, 21);
        assert(pow10(20) == 100000000000000000000nat);
    }
    let mut acc: u128 = 0;
    let mut i: usize = 0;
    while i < 20
        invariant
            key@.len() == STAMP_DIGITS + 1,
            i <= 20,
            forall|j: int| 0 <= j < i ==> 48 <= #[trigger] key@[j] <= 57,
            acc == decimal_value(key@.take(i as int)),
            acc < pow10(i as nat),
            pow10(20) == 100000000000000000000nat,
        decreases 20 - i,
    {
        let b = key[i];
        if b < 48 || b > 57 {
            return None;
        }
        let d: u128 = (b - 48) as u128;
        assert(acc * 10 + d < pow10(i as nat) * 10) by (nonlinear_arith)
            requires
                acc < pow10(i as nat),
                d < 10,
        ;
        proof {
            assert(pow10((i + 1) as nat) == pow10(i as nat) * 10);
            lemma_pow10_grows(i as nat, 20);
            assert(key@.take(i + 1).drop_last() =~= key@.take(i as int));
        }
        acc = acc * 10 + d;
        i = i + 1;
    }
    if acc > u64::MAX as u128 {
        return None;
    }
    Some(acc as u64)
}

proof fn lemma_pow10_grows(i: nat, j: nat)
    requires
        i < j,
    ensures
        pow10(i) * 10 <= pow10(j),
    decreases j,
{
    if i + 1 < j {
        lemma_pow10_grows(i, (j - 1) as nat);
        assert(pow10(j) == pow10((j - 1) as nat) * 10);
    }
}

/// The stamp for a new exchange: the clock reading, moved past the newest
/// stored stamp when the clock has not passed it, so that the new keys sort
/// after every key of the tree.
pub open spec fn next_stamp_spec(clock: u64, newest: Option<u64>) -> u64 {
    match newest {
        Some(n) => if clock <= n {
            if n < u64::MAX { (n + 1) as u64 } else { n }
        } else {
            clock
        },
        None => clock,
    }
}

/// Picks the stamp for a new exchange.
pub fn next_stamp(clock: u64, newest: Option<u64>) -> (r: u64)
    ensures
        r == next_stamp_spec(clock, newest),
        r >= clock,
        newest matches Some(n) ==> (n < u64::MAX ==> r > n),
{
    match newest {
        Some(n) => if clock <= n {
            if n < u64::MAX { n + 1 } else { n }
        } else {
            clock
        },
        None => clock,
    }
}

/// The stamp of the first of the newest entries, given newest first: `None`
/// when there is none or its key is not a turn key.
pub fn stamp_of_latest(latest: &Vec<RawEntry>) -> (r: Option<u64>)
    ensures
        latest@.len() == 0 ==> r is None,
        latest@.len() > 0 ==> (r is Some <==> has_key_shape(latest@[0].0@) && decimal_value(
            latest@[0].0@.take(STAMP_DIGITS as int),
        ) <= u64::MAX),
        r matches Some(v) ==> latest@.len() > 0 && v == decimal_value(
            latest@[0].0@.take(STAMP_DIGITS as int),
        ),
{
    if latest.len() == 0 {
        None
    } else {
        stamp_of_key(latest[0].0.as_slice())
    }
}

} // verus!
