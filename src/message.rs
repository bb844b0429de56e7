use vstd::prelude::*;
use crate::error::LedgerError;
use vstd::string::StringSliceAdditionalSpecFns;

verus! {

/// The intent that a transfer notification carries.
#[derive(Debug, Clone, Copy, PartialEq, Eq, Structural)]
pub enum MessageKind {
    Deposit,
    Withdrawal,
    /// A well-formed tag that names no known intent.
    Other,
}

/// JSON whitespace: space, tab, line feed, carriage return.
pub open spec fn is_space(b: u8) -> bool {
    b == 0x20 || b == 0x09 || b == 0x0a || b == 0x0d
}

/// A byte that may stand inside a string token: no quote, no backslash, no control byte.
pub open spec fn is_plain(b: u8) -> bool {
    b != 0x22 && b != 0x5c && b >= 0x20
}

/// `s` without its leading whitespace.
pub open spec fn skip_space(s: Seq<u8>) -> Seq<u8>
    decreases s.len(),
{
    if s.len() > 0 && is_space(s[0]) {
        skip_space(s.drop_first())
    } else {
        s
    }
}

/// The number of plain bytes at the start of `s`.
pub open spec fn plain_len(s: Seq<u8>) -> nat
    decreases s.len(),
{
    if s.len() > 0 && is_plain(s[0]) {
        1 + plain_len(s.drop_first())
    } else {
        0
    }
}

/// What follows the byte `c` at the start of `s`, whitespace before it skipped.
pub open spec fn after_byte(s: Seq<u8>, c: u8) -> Option<Seq<u8>> {
    let t = skip_space(s);
    if t.len() > 0 && t[0] == c {
        Some(t.drop_first())
    } else {
        None
    }
}

/// The body of the string token at the start of `s` (whitespace before it skipped),
/// and what follows the token.
pub open spec fn string_token(s: Seq<u8>) -> Option<(Seq<u8>, Seq<u8>)> {
    match after_byte(s, 0x22) {
        Some(u) => {
            let n = plain_len(u);
            if n < u.len() && u[n as int] == 0x22 {
                Some((u.take(n as int), u.skip((n + 1) as int)))
            } else {
                None
            }
        },
        None => None,
    }
}

/// The bytes of `kind`.
pub open spec fn kind_key() -> Seq<u8> {
    seq![0x6bu8, 0x69, 0x6e, 0x64]
}

/// The bytes of `deposit`.
pub open spec fn deposit_tag() -> Seq<u8> {
    seq![0x64u8, 0x65, 0x70, 0x6f, 0x73, 0x69, 0x74]
}

/// The bytes of `withdrawal`.
pub open spec fn withdrawal_tag() -> Seq<u8> {
    seq![0x77u8, 0x69, 0x74, 0x68, 0x64, 0x72, 0x61, 0x77, 0x61, 0x6c]
}

/// Whether the byte right after the whitespace at the start of `s` is `c`.
pub open spec fn next_is(s: Seq<u8>, c: u8) -> bool {
    after_byte(s, c) is Some
}

/// Reads the members `"key": "value"` at the start of `s`, separated by commas and
/// closed by `}` with nothing but whitespace after it. Gives how many members have
/// the key `kind` and the value of the first of them (empty where there is none),
/// or `None` where `s` has another shape.
pub open spec fn scan_members(s: Seq<u8>) -> Option<(nat, Seq<u8>)>
    decreases s.len(),
    via scan_members_decreases
{
    match string_token(s) {
        Some((key, s2)) => match after_byte(s2, 0x3a) {
            Some(s3) => match string_token(s3) {
                Some((value, s4)) => {
                    let here: nat = if key == kind_key() { 1 } else { 0 };
                    if next_is(s4, 0x2c) {
                        join(here, value, scan_members(after_byte(s4, 0x2c).unwrap()))
                    } else if next_is(s4, 0x7d) && skip_space(after_byte(s4, 0x7d).unwrap()).len() == 0 {
                        Some((here, if here == 1 { value } else { Seq::empty() }))
                    } else {
                        None
                    }
                },
                None => None,
            },
            None => None,
        },
        None => None,
    }
}

/// Puts one member (counted `here` times, with value `value`) in front of what
/// the rest of the members gave.
pub open spec fn join(here: nat, value: Seq<u8>, rest: Option<(nat, Seq<u8>)>) -> Option<(nat, Seq<u8>)> {
    match rest {
        Some((n, v)) => Some((here + n, if here == 1 { value } else { v })),
        None => None,
    }
}

proof fn lemma_skip_space_shorter(s: Seq<u8>)
    ensures
        skip_space(s).len() <= s.len(),
    decreases s.len(),
{
    if s.len() > 0 && is_space(s[0]) {
        lemma_skip_space_shorter(s.drop_first());
    }
}

proof fn lemma_plain_len_bounded(s: Seq<u8>)
    ensures
        plain_len(s) <= s.len(),
    decreases s.len(),
{
    if s.len() > 0 && is_plain(s[0]) {
        lemma_plain_len_bounded(s.drop_first());
    }
}

proof fn lemma_after_byte_shorter(s: Seq<u8>, c: u8)
    ensures
        after_byte(s, c) matches Some(t) ==> t.len() < s.len(),
{
    lemma_skip_space_shorter(s);
}

proof fn lemma_string_token_shorter(s: Seq<u8>)
    ensures
        string_token(s) matches Some((body, rest)) ==> rest.len() < s.len(),
{
    lemma_after_byte_shorter(s, 0x22);
    if let Some(u) = after_byte(s, 0x22) {
        lemma_plain_len_bounded(u);
    }
}

#[via_fn]
proof fn scan_members_decreases(s: Seq<u8>) {
    lemma_string_token_shorter(s);
    if let Some((key, s2)) = string_token(s) {
        lemma_after_byte_shorter(s2, 0x3a);
        if let Some(s3) = after_byte(s2, 0x3a) {
            lemma_string_token_shorter(s3);
            if let Some((value, s4)) = string_token(s3) {
                lemma_after_byte_shorter(s4, 0x2c);
            }
        }
    }
}

/// The tag of a message: a JSON object whose members have string values without
/// escapes, exactly one of them with the key `kind`; its value is the tag.
/// Whitespace may stand between tokens. `None` where `s` has another shape.
pub open spec fn message_tag(s: Seq<u8>) -> Option<Seq<u8>> {
    match after_byte(s, 0x7b) {
        Some(s1) => match scan_members(s1) {
            Some((n, tag)) => if n == 1 {
                Some(tag)
            } else {
                None
            },
            None => None,
        },
        None => None,
    }
}

/// The intent that a tag names.
pub open spec fn kind_of(tag: Seq<u8>) -> MessageKind {
    if tag == deposit_tag() {
        MessageKind::Deposit
    } else if tag == withdrawal_tag() {
        MessageKind::Withdrawal
    } else {
        MessageKind::Other
    }
}

/// The intent of the message with bytes `s`, or `None` where it is malformed.
pub open spec fn message_kind(s: Seq<u8>) -> Option<MessageKind> {
    match message_tag(s) {
        Some(tag) => Some(kind_of(tag)),
        None => None,
    }
}

/// The first index at or after `i` that holds no whitespace.
fn skip_space_at(b: &[u8], i: usize) -> (j: usize)
    requires
        i <= b@.len(),
    ensures
        i <= j <= b@.len(),
        skip_space(b@.skip(i as int)) == b@.skip(j as int),
{
    let mut j = i;
    while j < b.len() && (b[j] == 0x20 || b[j] == 0x09 || b[j] == 0x0a || b[j] == 0x0d)
        invariant
            i <= j <= b@.len(),
            skip_space(b@.skip(i as int)) == skip_space(b@.skip(j as int)),
        decreases b@.len() - j,
    {
        assert(b@.skip(j as int).drop_first() =~= b@.skip(j + 1));
        j = j + 1;
    }
    j
}

/// Where `c` follows `i` after whitespace: the index just past it.
fn byte_at(b: &[u8], i: usize, c: u8) -> (r: Option<usize>)
    requires
        i <= b@.len(),
    ensures
        match after_byte(b@.skip(i as int), c) {
            Some(rest) => r matches Some(k) && i < k <= b@.len() && rest == b@.skip(k as int),
            None => r is None,
        },
{
    let j = skip_space_at(b, i);
    if j < b.len() && b[j] == c {
        assert(b@.skip(j as int).drop_first() =~= b@.skip(j + 1));
        Some(j + 1)
    } else {
        None
    }
}

/// The string token that follows `i` after whitespace: the bounds of its body,
/// and the index just past the token.
fn string_at(b: &[u8], i: usize) -> (r: Option<(usize, usize, usize)>)
    requires
        i <= b@.len(),
    ensures
        match string_token(b@.skip(i as int)) {
            Some((body, rest)) => r matches Some((s, e, next)) && i < s <= e < next <= b@.len()
                && next == e + 1 && body == b@.subrange(s as int, e as int) && rest == b@.skip(
                next as int,
            ),
            None => r is None,
        },
{
    match byte_at(b, i, 0x22) {
        Some(s) => {
            let mut k = s;
            while k < b.len() && b[k] != 0x22 && b[k] != 0x5c && b[k] >= 0x20
                invariant
                    s <= k <= b@.len(),
                    plain_len(b@.skip(s as int)) == (k - s) + plain_len(b@.skip(k as int)),
                decreases b@.len() - k,
            {
                assert(b@.skip(k as int).drop_first() =~= b@.skip(k + 1));
                k = k + 1;
            }
            let ghost u = b@.skip(s as int);
            assert(plain_len(b@.skip(k as int)) == 0);
            if k < b.len() && b[k] == 0x22 {
                assert(u.take(k - s) =~= b@.subrange(s as int, k as int));
                assert(u.skip(k - s + 1) =~= b@.skip(k + 1));
                Some((s, k, k + 1))
            } else {
                None
            }
        },
        None => None,
    }
}

/// Whether `b[s..e]` holds exactly the bytes of `lit`.
fn bytes_equal(b: &[u8], s: usize, e: usize, lit: &Vec<u8>) -> (r: bool)
    requires
        s <= e <= b@.len(),
    ensures
        r == (b@.subrange(s as int, e as int) == lit@),
{
    if e - s != lit.len() {
        return false;
    }
    let mut k: usize = 0;
    while k < lit.len()
        invariant
            e - s == lit@.len(),
            s <= e <= b@.len(),
            k <= lit@.len(),
            forall|m: int| 0 <= m < k ==> b@[s + m] == lit@[m],
        decreases lit@.len() - k,
    {
        if b[s + k] != lit[k] {
            assert(b@.subrange(s as int, e as int)[k as int] != lit@[k as int]);
            return false;
        }
        k = k + 1;
    }
    assert(b@.subrange(s as int, e as int) =~= lit@);
    true
}

/// Decodes the intent of a transfer notification's message: a JSON object of
/// string members, one of them `kind`, whose value is the tag. `deposit` and
/// `withdrawal` are the known tags.
pub fn decode_message(msg: &str) -> (r: Result<MessageKind, LedgerError>)
    ensures
        match message_kind(msg.spec_bytes()) {
            Some(k) => r == Ok::<MessageKind, LedgerError>(k),
            None => r == Err::<MessageKind, LedgerError>(LedgerError::MalformedMessage),
        },
{
    let b = msg.as_bytes();
    let malformed = Err(LedgerError::MalformedMessage);
    let kind = vec![0x6bu8, 0x69, 0x6e, 0x64];
    assert(b@.skip(0) =~= b@);
    let start = match byte_at(b, 0, 0x7b) {
        Some(k) => k,
        None => return malformed,
    };
    let mut pos = start;
    let mut count: usize = 0;
    let mut tag: (usize, usize) = (0, 0);
    loop
        invariant
            b@ == msg.spec_bytes(),
            malformed == Err::<MessageKind, LedgerError>(LedgerError::MalformedMessage),
            start <= pos <= b@.len(),
            count <= pos,
            kind@ == kind_key(),
            tag.0 <= tag.1 <= b@.len(),
            after_byte(b@, 0x7b) == Some(b@.skip(start as int)),
            scan_members(b@.skip(start as int)) == join_seen(
                count as nat,
                b@.subrange(tag.0 as int, tag.1 as int),
                scan_members(b@.skip(pos as int)),
            ),
        decreases b@.len() - pos,
    {
        let ghost here = b@.skip(pos as int);
        let (ks, ke, s2) = match string_at(b, pos) {
            Some(t) => t,
            None => {
                assert(scan_members(here) is None);
                return malformed;
            },
        };
        let s3 = match byte_at(b, s2, 0x3a) {
            Some(k) => k,
            None => {
                assert(scan_members(here) is None);
                return malformed;
            },
        };
        let (vs, ve, s4) = match string_at(b, s3) {
            Some(t) => t,
            None => {
                assert(scan_members(here) is None);
                return malformed;
            },
        };
        let is_kind = bytes_equal(b, ks, ke, &kind);
        let ghost old_count = count as nat;
        let ghost old_tag = b@.subrange(tag.0 as int, tag.1 as int);
        if is_kind {
            if count == 0 {
                tag = (vs, ve);
            }
            count = count + 1;
        }
        let t = skip_space_at(b, s4);
        if t < b.len() && b[t] == 0x2c {
            proof {
                assert(b@.skip(t as int).drop_first() =~= b@.skip(t + 1));
                assert(after_byte(b@.skip(s4 as int), 0x2c) == Some(b@.skip(t + 1)));
                lemma_join_seen_step(old_count, old_tag, if is_kind { 1nat } else { 0nat }, b@.subrange(vs as int, ve as int), scan_members(b@.skip(t + 1)));
            }
            pos = t + 1;
        } else if t < b.len() && b[t] == 0x7d {
            let end = skip_space_at(b, t + 1);
            proof {
                assert(b@.skip(t as int).drop_first() =~= b@.skip(t + 1));
                assert(after_byte(b@.skip(s4 as int), 0x7d) == Some(b@.skip(t + 1)));
                assert(!next_is(b@.skip(s4 as int), 0x2c));
            }
            if end != b.len() {
                assert(scan_members(here) is None);
                return malformed;
            }
            if count != 1 {
                return malformed;
            }
            return if bytes_equal(b, tag.0, tag.1, &vec![0x64u8, 0x65, 0x70, 0x6f, 0x73, 0x69, 0x74]) {
                Ok(MessageKind::Deposit)
            } else if bytes_equal(
                b,
                tag.0,
                tag.1,
                &vec![0x77u8, 0x69, 0x74, 0x68, 0x64, 0x72, 0x61, 0x77, 0x61, 0x6c],
            ) {
                Ok(MessageKind::Withdrawal)
            } else {
                Ok(MessageKind::Other)
            };
        } else {
            return malformed;
        }
    }
}

/// What the members scanned so far (`seen` of them with the key `kind`, the first
/// with value `first`) and the rest together give.
spec fn join_seen(seen: nat, first: Seq<u8>, rest: Option<(nat, Seq<u8>)>) -> Option<(nat, Seq<u8>)> {
    match rest {
        Some((n, v)) => Some((seen + n, if seen > 0 { first } else { v })),
        None => None,
    }
}

proof fn lemma_join_seen_step(seen: nat, first: Seq<u8>, here: nat, value: Seq<u8>, rest: Option<(nat, Seq<u8>)>)
    requires
        here <= 1,
    ensures
        join_seen(seen, first, join(here, value, rest)) == join_seen(
            seen + here,
            if seen == 0 && here == 1 { value } else { first },
            rest,
        ),
{
}

} // verus!
