//! The line-oriented records the agent exchanges with its collaborator
//! processes.
//!
//! Three records cross a process boundary: the prompt input written to the
//! interactive prompt, the prompt response read back from it, and the
//! responder input handed to the privilege-elevated responder helper. Each
//! is a sequence of newline-terminated fields over plain text; ids are
//! written in canonical decimal. The encoders and parsers here are exact:
//! a parser accepts a string if and only if the record's grammar produces
//! it, and the responder record round-trips, so the helper process never
//! has to interpret anything but the agent's own output.

use vstd::prelude::*;

use crate::identity::Identity;
use crate::identity::str_eq;
use crate::session::{PromptInput, PromptResponse, ResponderInput};

verus! {

/// The value of a decimal digit character; 10 for any other character.
pub open spec fn digit_val(c: char) -> nat {
    match c {
        '0' => 0,
        '1' => 1,
        '2' => 2,
        '3' => 3,
        '4' => 4,
        '5' => 5,
        '6' => 6,
        '7' => 7,
        '8' => 8,
        '9' => 9,
        _ => 10,
    }
}

pub open spec fn is_digit(c: char) -> bool {
    digit_val(c) < 10
}

/// The digit character for a value below ten.
pub open spec fn digit_char(d: nat) -> char {
    if d == 0 {
        '0'
    } else if d == 1 {
        '1'
    } else if d == 2 {
        '2'
    } else if d == 3 {
        '3'
    } else if d == 4 {
        '4'
    } else if d == 5 {
        '5'
    } else if d == 6 {
        '6'
    } else if d == 7 {
        '7'
    } else if d == 8 {
        '8'
    } else {
        '9'
    }
}

/// The number a sequence of decimal digit characters denotes.
pub open spec fn dec_val(s: Seq<char>) -> nat
    decreases s.len(),
{
    if s.len() == 0 {
        0
    } else {
        dec_val(s.drop_last()) * 10 + digit_val(s.last())
    }
}

/// The canonical decimal form of a number: most significant digit first,
/// no leading zero.
pub open spec fn dec_digits(n: nat) -> Seq<char>
    decreases n,
{
    if n < 10 {
        seq![digit_char(n)]
    } else {
        dec_digits(n / 10).push(digit_char(n % 10))
    }
}

/// A canonical decimal field: nonempty, digits only, and no leading zero.
pub open spec fn canonical_dec(s: Seq<char>) -> bool {
    &&& s.len() >= 1
    &&& (forall|i: int| 0 <= i < s.len() ==> is_digit(#[trigger] s[i]))
    &&& (s.len() > 1 ==> s[0] != '0')
}

/// A decimal field as the lenient parser takes it: nonempty, digits only,
/// at most ten digits, denoting a value that fits an unsigned 32-bit id.
pub open spec fn valid_u32_dec(s: Seq<char>) -> bool {
    &&& 1 <= s.len() <= 10
    &&& (forall|i: int| 0 <= i < s.len() ==> is_digit(#[trigger] s[i]))
    &&& dec_val(s) <= u32::MAX
}

/// The canonical form of a number is a canonical decimal field denoting
/// that number.
pub proof fn lemma_dec_digits_canonical(n: nat)
    ensures
        canonical_dec(dec_digits(n)),
        dec_val(dec_digits(n)) == n,
    decreases n,
{
    if n < 10 {
        let s = dec_digits(n);
        assert(s =~= seq![digit_char(n)]);
        assert(s.drop_last() =~= Seq::<char>::empty());
        assert(s.last() == digit_char(n));
        assert(digit_val(digit_char(n)) == n);
        assert(dec_val(s) == dec_val(s.drop_last()) * 10 + digit_val(s.last()));
    } else {
        lemma_dec_digits_canonical(n / 10);
        let p = dec_digits(n / 10);
        let s = dec_digits(n);
        assert(s =~= p.push(digit_char(n % 10)));
        assert(s.drop_last() =~= p);
        assert(s.last() == digit_char(n % 10));
        assert(digit_val(digit_char(n % 10)) == n % 10);
        assert(dec_val(s) == dec_val(p) * 10 + n % 10);
        assert(n / 10 * 10 + n % 10 == n);
        assert(forall|i: int| 0 <= i < s.len() ==> is_digit(#[trigger] s[i]));
        assert(s[0] == p[0]);
        if p.len() == 1 {
            assert(p.drop_last() =~= Seq::<char>::empty());
            assert(dec_val(p) == dec_val(p.drop_last()) * 10 + digit_val(p.last()));
            assert(digit_val(p[0]) == n / 10 && n / 10 >= 1);
            assert(p[0] != '0');
        }
    }
}

/// A canonical decimal field that fits an unsigned 32-bit id is the
/// canonical form of its own value: the grammar is unambiguous.
pub proof fn lemma_canonical_is_digits(s: Seq<char>)
    requires
        canonical_dec(s),
    ensures
        dec_digits(dec_val(s)) =~= s,
    decreases s.len(),
{
    if s.len() == 1 {
        assert(s.drop_last() =~= Seq::<char>::empty());
        let d = digit_val(s[0]);
        assert(s.last() == s[0]);
        assert(dec_val(s) == dec_val(s.drop_last()) * 10 + digit_val(s.last()));
        assert(dec_val(s) == d);
        assert(digit_char(digit_val(s[0])) == s[0]);
        assert(dec_digits(d) =~= seq![digit_char(d)]);
    } else {
        let p = s.drop_last();
        assert(forall|i: int| 0 <= i < p.len() ==> is_digit(#[trigger] p[i]));
        assert(p[0] == s[0]);
        lemma_canonical_is_digits(p);
        lemma_nonzero_head_value(p);
        let v = dec_val(s);
        let d = digit_val(s.last());
        assert(v == dec_val(p) * 10 + d);
        assert(v >= 10);
        assert(v / 10 == dec_val(p) && v % 10 == d) by {
            assert(dec_val(p) * 10 + d == v);
            assert(d < 10);
        }
        assert(digit_char(digit_val(s.last())) == s.last());
        assert(dec_digits(v) =~= dec_digits(v / 10).push(digit_char(v % 10)));
        assert(dec_digits(v) =~= p.push(s.last()));
        assert(p.push(s.last()) =~= s);
    }
}

/// A digits-only field whose head is not zero denotes at least one.
proof fn lemma_nonzero_head_value(s: Seq<char>)
    requires
        s.len() >= 1,
        forall|i: int| 0 <= i < s.len() ==> is_digit(#[trigger] s[i]),
        s[0] != '0',
    ensures
        dec_val(s) >= 1,
    decreases s.len(),
{
    if s.len() == 1 {
        assert(digit_val(s[0]) >= 1);
    } else {
        let p = s.drop_last();
        assert(p[0] == s[0]);
        assert(forall|i: int| 0 <= i < p.len() ==> is_digit(#[trigger] p[i]));
        lemma_nonzero_head_value(p);
        assert(dec_val(s) == dec_val(p) * 10 + digit_val(s.last()));
    }
}

/// Along a digits-only field, the value of a prefix never exceeds the value
/// of the whole field.
proof fn lemma_dec_val_prefix_mono(s: Seq<char>, i: int)
    requires
        0 <= i <= s.len(),
    ensures
        dec_val(s.take(i)) <= dec_val(s),
    decreases s.len() - i,
{
    if i == s.len() {
        assert(s.take(i) =~= s);
    } else {
        lemma_dec_val_prefix_mono(s, i + 1);
        let t = s.take(i + 1);
        assert(t.drop_last() =~= s.take(i));
        assert(dec_val(t) == dec_val(s.take(i)) * 10 + digit_val(t.last()));
        assert(dec_val(s.take(i)) * 10 >= dec_val(s.take(i)));
    }
}

/// The digit value of a character, or none for a non-digit.
fn digit_of(c: char) -> (r: Option<u32>)
    ensures
        match r {
            Some(d) => is_digit(c) && d == digit_val(c),
            None => !is_digit(c),
        },
{
    match c {
        '0' => Some(0),
        '1' => Some(1),
        '2' => Some(2),
        '3' => Some(3),
        '4' => Some(4),
        '5' => Some(5),
        '6' => Some(6),
        '7' => Some(7),
        '8' => Some(8),
        '9' => Some(9),
        _ => None,
    }
}

/// Parses an unsigned 32-bit id from a whole decimal field, leniently:
/// leading zeros are accepted, anything else is not.
pub fn parse_u32(s: &str) -> (r: Option<u32>)
    ensures
        match r {
            Some(v) => valid_u32_dec(s@) && v == dec_val(s@),
            None => !valid_u32_dec(s@),
        },
{
    let n = s.unicode_len();
    if n == 0 || n > 10 {
        return None;
    }
    let mut acc: u64 = 0;
    let mut i: usize = 0;
    proof {
        assert(s@.take(0) =~= Seq::<char>::empty());
    }
    while i < n
        invariant
            i <= n,
            n == s@.len(),
            1 <= n <= 10,
            acc == dec_val(s@.take(i as int)),
            acc <= u32::MAX,
            forall|j: int| 0 <= j < i ==> is_digit(#[trigger] s@[j]),
        decreases n - i,
    {
        let c = s.get_char(i);
        let d = match digit_of(c) {
            Some(d) => d,
            None => {
                return None;
            },
        };
        let next: u64 = acc * 10 + (d as u64);
        proof {
            assert(s@.take(i + 1).drop_last() =~= s@.take(i as int));
            assert(s@.take(i + 1).last() == s@[i as int]);
        }
        if next > 0xffff_ffff {
            proof {
                lemma_dec_val_prefix_mono(s@, i + 1);
            }
            return None;
        }
        acc = next;
        i += 1;
    }
    proof {
        assert(s@.take(n as int) =~= s@);
    }
    Some(acc as u32)
}

/// Parses a canonical decimal field: as [`parse_u32`], but a leading zero
/// is rejected, so exactly the strings [`dec_digits`] produces for ids are
/// accepted.
pub fn parse_u32_canonical(s: &str) -> (r: Option<u32>)
    ensures
        match r {
            Some(v) => s@ =~= dec_digits(v as nat),
            None => forall|v: u32| s@ != dec_digits(v as nat),
        },
{
    let n = s.unicode_len();
    if n > 1 && s.get_char(0) == '0' {
        proof {
            assert forall|v: u32| s@ != dec_digits(v as nat) by {
                lemma_dec_digits_canonical(v as nat);
            }
        }
        return None;
    }
    match parse_u32(s) {
        Some(v) => {
            proof {
                assert(canonical_dec(s@));
                lemma_canonical_is_digits(s@);
            }
            Some(v)
        },
        None => {
            proof {
                lemma_pow10_ten();
                assert forall|v: u32| s@ != dec_digits(v as nat) by {
                    lemma_dec_digits_canonical(v as nat);
                    lemma_dec_digits_len_bound(v as nat, 10);
                }
            }
            None
        },
    }
}

/// Ten to the `k`.
pub open spec fn pow10(k: nat) -> nat
    decreases k,
{
    if k == 0 {
        1
    } else {
        10 * pow10((k - 1) as nat)
    }
}

/// Ten to the ten, written out.
proof fn lemma_pow10_ten()
    ensures
        pow10(10) == 10_000_000_000,
{
    assert(pow10(0) == 1);
    assert(pow10(1) == 10);
    assert(pow10(2) == 100);
    assert(pow10(3) == 1000);
    assert(pow10(4) == 10_000);
    assert(pow10(5) == 100_000);
    assert(pow10(6) == 1_000_000);
    assert(pow10(7) == 10_000_000);
    assert(pow10(8) == 100_000_000);
    assert(pow10(9) == 1_000_000_000);
}

/// Appends one digit character to a string.
fn push_digit(s: &mut String, d: u32)
    requires
        d < 10,
    ensures
        final(s)@ == old(s)@ + seq![digit_char(d as nat)],
{
    match d {
        0 => s.append("0"),
        1 => s.append("1"),
        2 => s.append("2"),
        3 => s.append("3"),
        4 => s.append("4"),
        5 => s.append("5"),
        6 => s.append("6"),
        7 => s.append("7"),
        8 => s.append("8"),
        _ => s.append("9"),
    }
    proof {
        reveal_strlit("0");
        reveal_strlit("1");
        reveal_strlit("2");
        reveal_strlit("3");
        reveal_strlit("4");
        reveal_strlit("5");
        reveal_strlit("6");
        reveal_strlit("7");
        reveal_strlit("8");
        reveal_strlit("9");
        assert(final(s)@ =~= old(s)@ + seq![digit_char(d as nat)]);
    }
}

/// Appends the canonical decimal form of a number to a string.
pub fn push_decimal(s: &mut String, n: u64)
    ensures
        final(s)@ == old(s)@ + dec_digits(n as nat),
    decreases n,
{
    if n >= 10 {
        push_decimal(s, n / 10);
        push_digit(s, (n % 10) as u32);
        proof {
            assert(final(s)@ =~= old(s)@ + dec_digits(n as nat)) by {
                assert(dec_digits(n as nat) == dec_digits(n as nat / 10).push(
                    digit_char(n as nat % 10),
                ));
                assert(dec_digits(n as nat / 10).push(digit_char(n as nat % 10)) =~= dec_digits(
                    n as nat / 10,
                ) + seq![digit_char(n as nat % 10)]);
            }
        }
    } else {
        push_digit(s, n as u32);
        proof {
            assert(final(s)@ =~= old(s)@ + dec_digits(n as nat));
        }
    }
}

/// The canonical decimal form of an id, as a string.
pub fn u32_to_decimal(n: u32) -> (r: String)
    ensures
        r@ == dec_digits(n as nat),
{
    let mut s = String::new();
    push_decimal(&mut s, n as u64);
    proof {
        assert(s@ =~= dec_digits(n as nat));
    }
    s
}

/// The position of the first occurrence of a character, if any.
pub open spec fn find_char(s: Seq<char>, c: char) -> Option<int>
    decreases s.len(),
{
    if s.len() == 0 {
        None
    } else if s[0] == c {
        Some(0)
    } else {
        match find_char(s.skip(1), c) {
            None => None,
            Some(i) => Some(i + 1),
        }
    }
}

/// What [`find_char`] answers: the first position holding the character,
/// or the character's absence.
pub proof fn lemma_find_char(s: Seq<char>, c: char)
    ensures
        match find_char(s, c) {
            Some(i) => 0 <= i < s.len() && s[i] == c && forall|j: int| 0 <= j < i ==> s[j] != c,
            None => forall|j: int| 0 <= j < s.len() ==> s[j] != c,
        },
    decreases s.len(),
{
    if s.len() == 0 {
    } else if s[0] == c {
    } else {
        lemma_find_char(s.skip(1), c);
        let t = s.skip(1);
        match find_char(t, c) {
            None => {
                assert forall|j: int| 0 <= j < s.len() implies s[j] != c by {
                    if j > 0 {
                        assert(t[j - 1] == s[j]);
                    }
                }
            },
            Some(i) => {
                assert(t[i] == s[i + 1]);
                assert forall|j: int| 0 <= j < i + 1 implies s[j] != c by {
                    if j > 0 {
                        assert(t[j - 1] == s[j]);
                    }
                }
            },
        }
    }
}

/// Splits a field off the front: the text before the first newline, and
/// everything after that newline.
pub open spec fn split_field(s: Seq<char>) -> Option<(Seq<char>, Seq<char>)> {
    match find_char(s, '\n') {
        None => None,
        Some(i) => Some((s.take(i), s.skip(i + 1))),
    }
}

/// Splitting recovers a newline-free field that was written in front.
pub proof fn lemma_split_prefix(x: Seq<char>, rest: Seq<char>)
    requires
        !x.contains('\n'),
    ensures
        split_field(x + seq!['\n'] + rest) == Some((x, rest)),
{
    let s = x + seq!['\n'] + rest;
    lemma_find_char(s, '\n');
    assert(s[x.len() as int] == '\n');
    assert(forall|j: int| 0 <= j < x.len() ==> s[j] == x[j]);
    match find_char(s, '\n') {
        None => {
            assert(false);
        },
        Some(i) => {
            assert(!(i < x.len() as int)) by {
                if i < x.len() as int {
                    assert(x.contains('\n'));
                }
            }
            assert(i == x.len() as int);
            assert(s.take(i) =~= x);
            assert(s.skip(i + 1) =~= rest);
        },
    }
}

/// The first position of a character in a string at or after `from`.
fn find_in_str(s: &str, from: usize, c: char) -> (r: Option<usize>)
    requires
        from <= s@.len(),
    ensures
        match r {
            Some(i) => from <= i < s@.len() && s@[i as int] == c && forall|j: int|
                from <= j < i ==> s@[j] != c,
            None => forall|j: int| from <= j < s@.len() ==> s@[j] != c,
        },
{
    let n = s.unicode_len();
    let mut i = from;
    while i < n
        invariant
            from <= i <= n,
            n == s@.len(),
            forall|j: int| from <= j < i ==> s@[j] != c,
        decreases n - i,
    {
        if s.get_char(i) == c {
            return Some(i);
        }
        i += 1;
    }
    None
}

/// What a prompt response string means: the chosen id in decimal before the
/// first colon, the credential after it. Anything else means nothing.
pub open spec fn spec_parse_response(s: Seq<char>) -> Option<(u32, Seq<char>)> {
    match find_char(s, ':') {
        None => None,
        Some(i) => if valid_u32_dec(s.take(i)) {
            Some((dec_val(s.take(i)) as u32, s.skip(i + 1)))
        } else {
            None
        },
    }
}

/// Parses the record the prompt program writes on success: `id:credential`.
///
/// A string is accepted exactly when it has a colon and the text before the
/// first colon is a decimal unsigned 32-bit id; the credential is everything
/// after that colon, uninterpreted. A malformed string is a broken prompt
/// contract and fails the session, so acceptance is deliberately exact.
pub fn parse_prompt_response(s: &str) -> (r: Option<PromptResponse>)
    ensures
        match r {
            Some(resp) => spec_parse_response(s@) == Some((resp.id, resp.password@)),
            None => spec_parse_response(s@) is None,
        },
{
    proof {
        lemma_find_char(s@, ':');
    }
    let n = s.unicode_len();
    let i = match find_in_str(s, 0, ':') {
        Some(i) => i,
        None => {
            return None;
        },
    };
    let idf = s.substring_char(0, i);
    proof {
        assert(idf@ =~= s@.take(i as int));
    }
    let id = match parse_u32(idf) {
        Some(v) => v,
        None => {
            return None;
        },
    };
    let password = s.substring_char(i + 1, n).to_owned();
    proof {
        assert(password@ =~= s@.skip(i + 1));
    }
    Some(PromptResponse { id, password })
}

/// The encoding of one candidate identity in the prompt input: kind, id and
/// account name, each on its own line.
pub open spec fn spec_encode_identity(ident: Identity) -> Seq<char> {
    (if ident is User {
        "unix-user"@
    } else {
        "unix-group"@
    }) + seq!['\n'] + dec_digits(ident.spec_id() as nat) + seq!['\n'] + ident.spec_name()
        + seq!['\n']
}

/// The encodings of a list of candidate identities, in order.
pub open spec fn spec_encode_identities(ids: Seq<Identity>) -> Seq<char>
    decreases ids.len(),
{
    if ids.len() == 0 {
        Seq::empty()
    } else {
        spec_encode_identity(ids[0]) + spec_encode_identities(ids.skip(1))
    }
}

/// The prompt input record: the number of candidates, each candidate, and
/// the request message as the uninterpreted remainder.
pub open spec fn spec_encode_prompt(message: Seq<char>, ids: Seq<Identity>) -> Seq<char> {
    dec_digits(ids.len()) + seq!['\n'] + spec_encode_identities(ids) + message
}

/// Extending the candidate list appends that candidate's encoding.
proof fn lemma_encode_identities_snoc(ids: Seq<Identity>, i: int)
    requires
        0 <= i < ids.len(),
    ensures
        spec_encode_identities(ids.take(i + 1)) =~= spec_encode_identities(ids.take(i))
            + spec_encode_identity(ids[i]),
    decreases i,
{
    if i == 0 {
        let t = ids.take(1);
        assert(t[0] == ids[0]);
        assert(t.skip(1) =~= Seq::<Identity>::empty());
        assert(spec_encode_identities(t.skip(1)) =~= Seq::<char>::empty());
        assert(ids.take(0) =~= Seq::<Identity>::empty());
    } else {
        let t = ids.take(i + 1);
        let u = ids.take(i);
        assert(t[0] == ids[0] && u[0] == ids[0]);
        assert(t.skip(1) =~= ids.skip(1).take(i));
        assert(u.skip(1) =~= ids.skip(1).take(i - 1));
        assert(ids.skip(1)[i - 1] == ids[i]);
        lemma_encode_identities_snoc(ids.skip(1), i - 1);
    }
}

/// Writes the prompt input record for the prompt program.
pub fn encode_prompt_input(input: &PromptInput) -> (r: String)
    ensures
        r@ == spec_encode_prompt(input.message@, input.users@),
{
    let mut s = String::new();
    let n = input.users.len();
    push_decimal(&mut s, n as u64);
    s.append("\n");
    proof {
        reveal_strlit("\n");
        assert(s@ =~= dec_digits(n as nat) + seq!['\n']);
        assert(input.users@.take(0) =~= Seq::<Identity>::empty());
        assert(s@ + spec_encode_identities(input.users@.take(0)) =~= s@);
    }
    let ghost head: Seq<char> = s@;
    let mut i: usize = 0;
    while i < n
        invariant
            i <= n,
            n == input.users@.len(),
            s@ == head + spec_encode_identities(input.users@.take(i as int)),
        decreases n - i,
    {
        let ident = &input.users[i];
        match ident {
            Identity::User { .. } => s.append("unix-user"),
            Identity::Group { .. } => s.append("unix-group"),
        }
        s.append("\n");
        push_decimal(&mut s, ident.id() as u64);
        s.append("\n");
        s.append(ident.name().as_str());
        s.append("\n");
        proof {
            reveal_strlit("\n");
            lemma_encode_identities_snoc(input.users@, i as int);
            assert(s@ =~= head + spec_encode_identities(input.users@.take(i + 1)));
        }
        i += 1;
    }
    s.append(input.message.as_str());
    proof {
        assert(input.users@.take(n as int) =~= input.users@);
        assert(s@ =~= spec_encode_prompt(input.message@, input.users@));
    }
    s
}

/// Which kind of identity a responder record designates.
#[derive(Clone, Copy, Debug, PartialEq, Eq, Structural)]
pub enum IdKind {
    User,
    Group,
}

/// The kind of an identity.
pub open spec fn identity_kind(ident: Identity) -> IdKind {
    if ident is User {
        IdKind::User
    } else {
        IdKind::Group
    }
}

/// The kind string of a responder record.
pub open spec fn kind_text(k: IdKind) -> Seq<char> {
    if k is User {
        "unix-user"@
    } else {
        "unix-group"@
    }
}

/// The attribute key belonging to a kind.
pub open spec fn key_text(k: IdKind) -> Seq<char> {
    if k is User {
        "uid"@
    } else {
        "gid"@
    }
}

/// The record crossing the privilege boundary, as the responder helper
/// reads it back: the agent's uid, the correlation cookie, and the already
/// verified identity's kind and id. No credential material and no names
/// cross the boundary.
#[derive(Debug)]
pub struct ResponderRecord {
    pub agent_uid: u32,
    pub cookie: String,
    pub kind: IdKind,
    pub id: u32,
}

/// The responder input record: agent uid, cookie, identity kind, attribute
/// key and id, each field on its own newline-terminated line.
pub open spec fn spec_encode_responder(
    agent_uid: u32,
    cookie: Seq<char>,
    kind: IdKind,
    id: u32,
) -> Seq<char> {
    dec_digits(agent_uid as nat) + seq!['\n'] + cookie + seq!['\n'] + kind_text(kind) + seq!['\n']
        + key_text(kind) + seq!['\n'] + dec_digits(id as nat) + seq!['\n']
}

/// Writes the record handed to the responder helper.
pub fn encode_responder_input(input: &ResponderInput) -> (r: String)
    ensures
        r@ == spec_encode_responder(
            input.agent_uid,
            input.cookie@,
            identity_kind(input.identity),
            input.identity.spec_id(),
        ),
{
    let mut s = String::new();
    push_decimal(&mut s, input.agent_uid as u64);
    s.append("\n");
    s.append(input.cookie.as_str());
    s.append("\n");
    match &input.identity {
        Identity::User { .. } => {
            s.append("unix-user");
            s.append("\n");
            s.append("uid");
        },
        Identity::Group { .. } => {
            s.append("unix-group");
            s.append("\n");
            s.append("gid");
        },
    }
    s.append("\n");
    push_decimal(&mut s, input.identity.id() as u64);
    s.append("\n");
    proof {
        reveal_strlit("\n");
        assert(s@ =~= spec_encode_responder(
            input.agent_uid,
            input.cookie@,
            identity_kind(input.identity),
            input.identity.spec_id(),
        ));
    }
    s
}

/// What a responder input string means: the five fields read back, provided
/// the string is exactly five newline-terminated lines, both numbers are
/// canonical decimal ids, the kind is known, and the key matches the kind.
pub open spec fn spec_decode_responder(s: Seq<char>) -> Option<(u32, Seq<char>, IdKind, u32)> {
    match split_field(s) {
        None => None,
        Some((f0, r0)) => match split_field(r0) {
            None => None,
            Some((cookie, r1)) => match split_field(r1) {
                None => None,
                Some((f2, r2)) => match split_field(r2) {
                    None => None,
                    Some((f3, r3)) => match split_field(r3) {
                        None => None,
                        Some((f4, r4)) => if r4.len() == 0 && canonical_dec(f0) && dec_val(f0)
                            <= u32::MAX && canonical_dec(f4) && dec_val(f4) <= u32::MAX {
                            if f2 == "unix-user"@ && f3 == "uid"@ {
                                Some((dec_val(f0) as u32, cookie, IdKind::User, dec_val(f4) as u32))
                            } else if f2 == "unix-group"@ && f3 == "gid"@ {
                                Some(
                                    (dec_val(f0) as u32, cookie, IdKind::Group, dec_val(f4) as u32),
                                )
                            } else {
                                None
                            }
                        } else {
                            None
                        },
                    },
                },
            },
        },
    }
}

/// The canonical form of a number holds digits only, so no newline.
proof fn lemma_digits_no_newline(n: nat)
    ensures
        !dec_digits(n).contains('\n'),
{
    lemma_dec_digits_canonical(n);
    assert forall|i: int| 0 <= i < dec_digits(n).len() implies dec_digits(n)[i] != '\n' by {
        assert(is_digit(dec_digits(n)[i]));
    }
}

/// The kind and key strings hold no newline, and the two kind strings
/// differ.
proof fn lemma_kind_key_text()
    ensures
        !kind_text(IdKind::User).contains('\n'),
        !kind_text(IdKind::Group).contains('\n'),
        !key_text(IdKind::User).contains('\n'),
        !key_text(IdKind::Group).contains('\n'),
        kind_text(IdKind::User) != kind_text(IdKind::Group),
        key_text(IdKind::User) != key_text(IdKind::Group),
{
    reveal_strlit("unix-user");
    reveal_strlit("unix-group");
    reveal_strlit("uid");
    reveal_strlit("gid");
    assert forall|i: int| 0 <= i < "unix-user"@.len() implies "unix-user"@[i] != '\n' by {}
    assert forall|i: int| 0 <= i < "unix-group"@.len() implies "unix-group"@[i] != '\n' by {}
    assert forall|i: int| 0 <= i < "uid"@.len() implies "uid"@[i] != '\n' by {}
    assert forall|i: int| 0 <= i < "gid"@.len() implies "gid"@[i] != '\n' by {}
    assert("unix-user"@.len() != "unix-group"@.len());
    assert("uid"@[0] != "gid"@[0]);
}

/// The responder record round-trips: the helper reads back exactly what
/// the agent wrote, for every record whose cookie holds no newline.
pub proof fn lemma_responder_round_trip(agent_uid: u32, cookie: Seq<char>, kind: IdKind, id: u32)
    requires
        !cookie.contains('\n'),
    ensures
        spec_decode_responder(spec_encode_responder(agent_uid, cookie, kind, id)) == Some(
            (agent_uid, cookie, kind, id),
        ),
{
    let nl = seq!['\n'];
    let f0 = dec_digits(agent_uid as nat);
    let f4 = dec_digits(id as nat);
    let s = spec_encode_responder(agent_uid, cookie, kind, id);
    let r0 = cookie + nl + kind_text(kind) + nl + key_text(kind) + nl + f4 + nl;
    let r1 = kind_text(kind) + nl + key_text(kind) + nl + f4 + nl;
    let r2 = key_text(kind) + nl + f4 + nl;
    let r3 = f4 + nl;
    let r4 = Seq::<char>::empty();
    lemma_dec_digits_canonical(agent_uid as nat);
    lemma_dec_digits_canonical(id as nat);
    lemma_digits_no_newline(agent_uid as nat);
    lemma_digits_no_newline(id as nat);
    lemma_kind_key_text();
    assert(s =~= f0 + nl + r0);
    lemma_split_prefix(f0, r0);
    assert(split_field(s) == Some((f0, r0)));
    assert(r0 =~= cookie + nl + r1);
    lemma_split_prefix(cookie, r1);
    assert(split_field(r0) == Some((cookie, r1)));
    assert(r1 =~= kind_text(kind) + nl + r2);
    lemma_split_prefix(kind_text(kind), r2);
    assert(split_field(r1) == Some((kind_text(kind), r2)));
    assert(r2 =~= key_text(kind) + nl + r3);
    lemma_split_prefix(key_text(kind), r3);
    assert(split_field(r2) == Some((key_text(kind), r3)));
    assert(r3 =~= f4 + nl + r4);
    lemma_split_prefix(f4, r4);
    assert(split_field(r3) == Some((f4, r4)));
}

/// A split came from writing the field in front: the other direction of
/// [`lemma_split_prefix`].
proof fn lemma_split_inv(s: Seq<char>)
    ensures
        split_field(s) matches Some(fr) ==> s == fr.0 + seq!['\n'] + fr.1,
        split_field(s) matches Some(fr) ==> !fr.0.contains('\n'),
{
    lemma_find_char(s, '\n');
    match find_char(s, '\n') {
        None => {},
        Some(i) => {
            assert(s.take(i) + seq!['\n'] + s.skip(i + 1) =~= s);
            assert forall|j: int| 0 <= j < s.take(i).len() implies s.take(i)[j] != '\n' by {}
        },
    }
}

/// The helper accepts nothing but the agent's own output: a string the
/// responder record parser accepts is exactly the encoding of what it
/// parsed to.
pub proof fn lemma_responder_decode_sound(s: Seq<char>, t: (u32, Seq<char>, IdKind, u32))
    requires
        spec_decode_responder(s) == Some(t),
    ensures
        s == spec_encode_responder(t.0, t.1, t.2, t.3),
        !t.1.contains('\n'),
{
    let nl = seq!['\n'];
    lemma_split_inv(s);
    let fr0 = split_field(s).unwrap();
    let (f0, r0) = fr0;
    lemma_split_inv(r0);
    let fr1 = split_field(r0).unwrap();
    let (cookie, r1) = fr1;
    lemma_split_inv(r1);
    let fr2 = split_field(r1).unwrap();
    let (f2, r2) = fr2;
    lemma_split_inv(r2);
    let fr3 = split_field(r2).unwrap();
    let (f3, r3) = fr3;
    lemma_split_inv(r3);
    let fr4 = split_field(r3).unwrap();
    let (f4, r4) = fr4;
    assert(r4 =~= Seq::<char>::empty());
    lemma_canonical_is_digits(f0);
    lemma_canonical_is_digits(f4);
    assert(dec_digits(t.0 as nat) == f0);
    assert(dec_digits(t.3 as nat) == f4);
    assert(f2 == kind_text(t.2) && f3 == key_text(t.2));
    assert(s =~= f0 + nl + cookie + nl + f2 + nl + f3 + nl + f4 + nl);
}

/// Reads the record the responder helper is handed on its input channel.
///
/// Exactly the strings [`spec_encode_responder`] produces are accepted (see
/// [`lemma_responder_decode_sound`]), and every such string is accepted
/// (see [`lemma_responder_round_trip`]): the helper process never
/// interprets anything but the agent's own output.
pub fn decode_responder_input(s: &str) -> (r: Option<ResponderRecord>)
    ensures
        match r {
            Some(rec) => spec_decode_responder(s@) == Some(
                (rec.agent_uid, rec.cookie@, rec.kind, rec.id),
            ),
            None => spec_decode_responder(s@) is None,
        },
{
    let n = s.unicode_len();
    proof {
        assert(s@.skip(0) =~= s@);
    }
    let i0 = match find_in_str(s, 0, '\n') {
        Some(i) => i,
        None => {
            proof {
                lemma_scan_none(s@, 0);
            }
            return None;
        },
    };
    proof {
        lemma_scan_split(s@, 0, i0 as int);
        assert(s@.subrange(0, i0 as int) =~= s@.take(i0 as int));
    }
    let f0s = s.substring_char(0, i0);
    let agent_uid = match parse_u32_canonical(f0s) {
        Some(v) => v,
        None => {
            proof {
                lemma_not_canonical(f0s@);
            }
            return None;
        },
    };
    proof {
        lemma_dec_digits_canonical(agent_uid as nat);
    }
    let p1 = i0 + 1;
    let i1 = match find_in_str(s, p1, '\n') {
        Some(i) => i,
        None => {
            proof {
                lemma_scan_none(s@, p1 as int);
            }
            return None;
        },
    };
    proof {
        lemma_scan_split(s@, p1 as int, i1 as int);
        assert(s@.subrange(p1 as int, i1 as int) =~= s@.skip(p1 as int).take(i1 - p1));
    }
    let cookie = s.substring_char(p1, i1).to_owned();
    let p2 = i1 + 1;
    let i2 = match find_in_str(s, p2, '\n') {
        Some(i) => i,
        None => {
            proof {
                lemma_scan_none(s@, p2 as int);
            }
            return None;
        },
    };
    proof {
        lemma_scan_split(s@, p2 as int, i2 as int);
        assert(s@.subrange(p2 as int, i2 as int) =~= s@.skip(p2 as int).take(i2 - p2));
    }
    let f2s = s.substring_char(p2, i2);
    let is_user = if str_eq(f2s, "unix-user") {
        true
    } else if str_eq(f2s, "unix-group") {
        false
    } else {
        proof {
            lemma_kind_key_text();
        }
        return None;
    };
    let p3 = i2 + 1;
    let i3 = match find_in_str(s, p3, '\n') {
        Some(i) => i,
        None => {
            proof {
                lemma_scan_none(s@, p3 as int);
            }
            return None;
        },
    };
    proof {
        lemma_scan_split(s@, p3 as int, i3 as int);
        assert(s@.subrange(p3 as int, i3 as int) =~= s@.skip(p3 as int).take(i3 - p3));
    }
    let f3s = s.substring_char(p3, i3);
    let key_ok = if is_user {
        str_eq(f3s, "uid")
    } else {
        str_eq(f3s, "gid")
    };
    if !key_ok {
        proof {
            lemma_kind_key_text();
        }
        return None;
    }
    let p4 = i3 + 1;
    let i4 = match find_in_str(s, p4, '\n') {
        Some(i) => i,
        None => {
            proof {
                lemma_scan_none(s@, p4 as int);
            }
            return None;
        },
    };
    proof {
        lemma_scan_split(s@, p4 as int, i4 as int);
        assert(s@.subrange(p4 as int, i4 as int) =~= s@.skip(p4 as int).take(i4 - p4));
    }
    let f4s = s.substring_char(p4, i4);
    let id = match parse_u32_canonical(f4s) {
        Some(v) => v,
        None => {
            proof {
                lemma_not_canonical(f4s@);
            }
            return None;
        },
    };
    proof {
        lemma_dec_digits_canonical(id as nat);
    }
    if i4 + 1 != n {
        return None;
    }
    let kind = if is_user {
        IdKind::User
    } else {
        IdKind::Group
    };
    proof {
        reveal_strlit("unix-user");
        reveal_strlit("unix-group");
        assert("unix-user"@.len() != "unix-group"@.len());
    }
    Some(ResponderRecord { agent_uid, cookie, kind, id })
}

/// A field no id's canonical form equals is not a canonical decimal field
/// denoting an id.
proof fn lemma_not_canonical(f: Seq<char>)
    requires
        forall|v: u32| f != dec_digits(v as nat),
    ensures
        !(canonical_dec(f) && dec_val(f) <= u32::MAX),
{
    if canonical_dec(f) && dec_val(f) <= u32::MAX {
        lemma_canonical_is_digits(f);
        let v = dec_val(f) as u32;
        assert(f =~= dec_digits(v as nat));
    }
}

/// The scanner found no newline at or after `p`: the remainder splits into
/// no field.
proof fn lemma_scan_none(s: Seq<char>, p: int)
    requires
        0 <= p <= s.len(),
        forall|j: int| p <= j < s.len() ==> s[j] != '\n',
    ensures
        split_field(s.skip(p)) is None,
{
    let rem = s.skip(p);
    lemma_find_char(rem, '\n');
    match find_char(rem, '\n') {
        Some(k) => {
            assert(rem[k] == s[p + k]);
            assert(false);
        },
        None => {},
    }
}

/// The scanner found the first newline at or after `p` at `i`: the
/// remainder splits into the field between `p` and `i` and the rest.
proof fn lemma_scan_split(s: Seq<char>, p: int, i: int)
    requires
        0 <= p <= i < s.len(),
        s[i] == '\n',
        forall|j: int| p <= j < i ==> s[j] != '\n',
    ensures
        split_field(s.skip(p)) == Some((s.subrange(p, i), s.skip(i + 1))),
{
    let rem = s.skip(p);
    lemma_find_char(rem, '\n');
    assert(rem[i - p] == s[i]);
    match find_char(rem, '\n') {
        None => {
            assert(false);
        },
        Some(k) => {
            assert(rem[k] == s[p + k]);
            assert(k == i - p);
            assert(rem.take(k) =~= s.subrange(p, i));
            assert(rem.skip(k + 1) =~= s.skip(i + 1));
        },
    }
}

/// A number below ten to the `k` has at most `k` digits in canonical form.
proof fn lemma_dec_digits_len_bound(n: nat, k: nat)
    requires
        k >= 1,
        n < pow10(k),
    ensures
        dec_digits(n).len() <= k,
    decreases k,
{
    if n >= 10 {
        assert(pow10(k) == 10 * pow10((k - 1) as nat));
        assert(n == 10 * (n / 10) + n % 10);
        assert(10 * (n / 10) < 10 * pow10((k - 1) as nat));
        assert(n / 10 < pow10((k - 1) as nat));
        if k == 1 {
            assert(pow10(1) == 10);
        }
        lemma_dec_digits_len_bound(n / 10, (k - 1) as nat);
    }
}

} // verus!
