//! One credential and its `name=secret` line format.

use vstd::prelude::*;
use crate::oracle::{base32_decoded, decode_secret, hotp_sha1_code, unix_seconds};

verus! {

/// Length in seconds of one time window.
pub const PERIOD: u64 = 30;

/// Number of decimal digits of a code.
pub const DIGITS: usize = 6;

/// Number of windows before and after the current one that a check accepts.
pub const SKEW: u8 = 1;

/// The separator between the name and the secret of a line.
pub const SEPARATOR: char = '=';

/// Why a line or a name/secret pair could not become a credential.
#[derive(Debug, Clone, Copy, PartialEq, Eq, Structural)]
pub enum EntryError {
    /// The line does not hold exactly one separator.
    Format,
    /// The secret is not base32 text of a key of at least 16 bytes.
    Oracle,
}

/// How many separators a text holds.
pub open spec fn count_sep(s: Seq<char>) -> nat
    decreases s.len(),
{
    if s.len() == 0 {
        0
    } else {
        count_sep(s.drop_last()) + if s.last() == SEPARATOR { 1nat } else { 0nat }
    }
}

/// The index of the first separator at or after `i`, or the length.
pub open spec fn first_sep_from(s: Seq<char>, i: int) -> int
    decreases s.len() - i,
{
    if i < 0 || i >= s.len() {
        s.len() as int
    } else if s[i] == SEPARATOR {
        i
    } else {
        first_sep_from(s, i + 1)
    }
}

/// The text before the first separator.
pub open spec fn line_name(s: Seq<char>) -> Seq<char> {
    s.subrange(0, first_sep_from(s, 0))
}

/// The text after the first separator.
pub open spec fn line_secret(s: Seq<char>) -> Seq<char> {
    s.subrange(first_sep_from(s, 0) + 1, s.len() as int)
}

/// The line that a name and a secret are written as.
pub open spec fn line_of(name: Seq<char>, secret: Seq<char>) -> Seq<char> {
    name + seq![SEPARATOR] + secret
}

/// Whether a secret decodes to a key that a TOTP generator accepts.
pub open spec fn key_ok(secret: Seq<char>) -> bool {
    base32_decoded(secret) matches Some(k) && k.len() >= 16
}

/// The key bytes of a secret.
pub open spec fn key_of(secret: Seq<char>) -> Seq<u8> {
    base32_decoded(secret)->0
}

/// The code of a secret for the window that holds second `time`.
pub open spec fn code_of(secret: Seq<char>, time: nat) -> Seq<char> {
    hotp_sha1_code(key_of(secret), DIGITS as nat, time / (PERIOD as nat))
}

/// Seconds from `time` to the start of the next window.
pub open spec fn remaining_of(time: nat) -> nat {
    (PERIOD as nat - time % (PERIOD as nat)) as nat
}

/// Splits a `name=secret` line at its separator; fails unless the line
/// holds exactly one.
pub fn split_line(s: &str) -> (r: Result<(String, String), EntryError>)
    ensures
        r is Ok <==> count_sep(s@) == 1,
        r is Err ==> r == Err::<(String, String), EntryError>(EntryError::Format),
        r matches Ok((name, secret)) ==> name@ == line_name(s@) && secret@ == line_secret(s@),
{
    let n = s.unicode_len();
    let mut i: usize = 0;
    let mut count: usize = 0;
    let mut pos: usize = n;
    while i < n
        invariant
            n == s@.len(),
            i <= n,
            count == count_sep(s@.subrange(0, i as int)),
            count <= i,
            pos <= n,
            count > 0 <==> pos < n,
            pos == n ==> first_sep_from(s@, 0) == first_sep_from(s@, i as int),
            pos < n ==> pos == first_sep_from(s@, 0) && pos < i,
        decreases n - i,
    {
        let c = s.get_char(i);
        assert(s@.subrange(0, i + 1).drop_last() =~= s@.subrange(0, i as int));
        assert(s@.subrange(0, i + 1).last() == c);
        if c == SEPARATOR {
            count = count + 1;
            if pos == n {
                pos = i;
            }
        }
        i = i + 1;
    }
    assert(s@.subrange(0, n as int) =~= s@);
    if count != 1 {
        return Err(EntryError::Format);
    }
    let name = String::from_str(s.substring_char(0, pos));
    let secret = String::from_str(s.substring_char(pos + 1, n));
    Ok((name, secret))
}

/// A named TOTP credential (SHA-1, six digits, thirty-second windows).
pub struct TOTPEntry {
    /// The label shown for the credential and used to sort the registry.
    pub name: String,
    secret: String,
    totp: totp_rs::TOTP,
}

impl View for TOTPEntry {
    type V = (Seq<char>, Seq<char>);

    /// The name and the secret text.
    closed spec fn view(&self) -> (Seq<char>, Seq<char>) {
        (self.name@, self.secret@)
    }
}

impl TOTPEntry {
    /// The generator was built from the decoded secret with the fixed scheme.
    pub closed spec fn wf(&self) -> bool {
        &&& key_ok(self.secret@)
        &&& self.totp.algorithm == totp_rs::Algorithm::SHA1
        &&& self.totp.digits == DIGITS
        &&& self.totp.skew == SKEW
        &&& self.totp.step == PERIOD
        &&& self.totp.secret@ == key_of(self.secret@)
    }

    /// The name, as text.
    pub fn name_str(&self) -> (r: &str)
        ensures
            r@ == self@.0,
    {
        self.name.as_str()
    }

    /// The secret, as text.
    pub fn secret_str(&self) -> (r: &str)
        ensures
            r@ == self@.1,
    {
        self.secret.as_str()
    }

    /// Builds a credential from a name and a base32 secret.
    pub fn new(name: &str, secret: &str) -> (r: Result<TOTPEntry, EntryError>)
        ensures
            r is Ok <==> key_ok(secret@),
            r is Err ==> r == Err::<TOTPEntry, EntryError>(EntryError::Oracle),
            r matches Ok(e) ==> e@ == (name@, secret@) && e.wf(),
    {
        let key = match decode_secret(secret) {
            Some(k) => k,
            None => return Err(EntryError::Oracle),
        };
        match totp_rs::TOTP::new(totp_rs::Algorithm::SHA1, DIGITS, SKEW, PERIOD, key) {
            Ok(totp) => Ok(TOTPEntry { name: String::from_str(name), secret: String::from_str(secret), totp }),
            Err(_) => Err(EntryError::Oracle),
        }
    }

    /// Reads a `name=secret` line: it must hold exactly one separator, and
    /// the secret must be usable.
    pub fn parse(s: &str) -> (r: Result<TOTPEntry, EntryError>)
        ensures
            count_sep(s@) != 1 ==> r == Err::<TOTPEntry, EntryError>(EntryError::Format),
            count_sep(s@) == 1 ==> (r is Ok <==> key_ok(line_secret(s@))),
            count_sep(s@) == 1 && !key_ok(line_secret(s@)) ==> r == Err::<TOTPEntry, EntryError>(
                EntryError::Oracle,
            ),
            r matches Ok(e) ==> e@ == (line_name(s@), line_secret(s@)) && e.wf(),
    {
        match split_line(s) {
            Ok((name, secret)) => Self::new(name.as_str(), secret.as_str()),
            Err(err) => Err(err),
        }
    }

    /// Writes the credential as a `name=secret` line, without a line end.
    pub fn dump(&self) -> (r: String)
        ensures
            r@ == line_of(self@.0, self@.1),
    {
        let mut r = String::from_str(self.name.as_str());
        proof {
            reveal_strlit("=");
        }
        r.append("=");
        r.append(self.secret.as_str());
        r
    }

    /// The code of the window that holds second `time` of the Unix epoch.
    pub fn code_at(&self, time: u64) -> (r: String)
        requires
            self.wf(),
        ensures
            r@ == code_of(self@.1, time as nat),
    {
        self.totp.generate(time)
    }

    /// Seconds from second `time` of the Unix epoch to the next window.
    pub fn remaining_at(time: u64) -> (r: u64)
        ensures
            r == remaining_of(time as nat),
            1 <= r <= PERIOD,
    {
        PERIOD - time % PERIOD
    }

    /// The code of the current window, or `None` where the clock reads a
    /// time before the Unix epoch.
    pub fn current_code(&self) -> (r: Option<String>)
        requires
            self.wf(),
        ensures
            r matches Some(c) ==> exists|t: u64| c@ == code_of(self@.1, t as nat),
    {
        match unix_seconds() {
            Some(now) => Some(self.code_at(now)),
            None => None,
        }
    }

    /// Seconds left in the current window, or `None` where the clock reads
    /// a time before the Unix epoch.
    pub fn remaining_seconds(&self) -> (r: Option<u16>)
        ensures
            r matches Some(x) ==> 1 <= x <= PERIOD,
    {
        match unix_seconds() {
            Some(now) => Some(Self::remaining_at(now) as u16),
            None => None,
        }
    }
}

proof fn lemma_count_sep_concat(a: Seq<char>, b: Seq<char>)
    ensures
        count_sep(a + b) == count_sep(a) + count_sep(b),
    decreases b.len(),
{
    if b.len() == 0 {
        assert(a + b =~= a);
    } else {
        lemma_count_sep_concat(a, b.drop_last());
        assert((a + b).drop_last() =~= a + b.drop_last());
        assert((a + b).last() == b.last());
    }
}

proof fn lemma_count_sep_absent(s: Seq<char>)
    requires
        !s.contains(SEPARATOR),
    ensures
        count_sep(s) == 0,
    decreases s.len(),
{
    if s.len() > 0 {
        assert(!s.drop_last().contains(SEPARATOR)) by {
            assert forall|j: int| 0 <= j < s.drop_last().len() implies s.drop_last()[j] != SEPARATOR by {
                assert(s[j] != SEPARATOR);
            }
        }
        lemma_count_sep_absent(s.drop_last());
        assert(s[s.len() - 1] != SEPARATOR);
    }
}

proof fn lemma_first_sep_of_line(name: Seq<char>, secret: Seq<char>, i: int)
    requires
        0 <= i <= name.len(),
        !name.contains(SEPARATOR),
    ensures
        first_sep_from(line_of(name, secret), i) == name.len(),
    decreases name.len() - i,
{
    let l = line_of(name, secret);
    if i < name.len() {
        assert(l[i] == name[i]);
        assert(name[i] != SEPARATOR);
        lemma_first_sep_of_line(name, secret, i + 1);
    } else {
        assert(l[i] == SEPARATOR);
    }
}

/// Writing a well-formed credential whose name and secret hold no separator
/// as a line, and reading that line back, gives the same name and the same
/// secret, which is usable again: `parse(dump(e))` succeeds with `e`'s view.
pub proof fn lemma_round_trip(e: &TOTPEntry)
    requires
        e.wf(),
        !e@.0.contains(SEPARATOR),
        !e@.1.contains(SEPARATOR),
    ensures
        count_sep(line_of(e@.0, e@.1)) == 1,
        line_name(line_of(e@.0, e@.1)) == e@.0,
        line_secret(line_of(e@.0, e@.1)) == e@.1,
        key_ok(line_secret(line_of(e@.0, e@.1))),
{
    let (name, secret) = e@;
    let l = line_of(name, secret);
    lemma_count_sep_concat(name + seq![SEPARATOR], secret);
    lemma_count_sep_concat(name, seq![SEPARATOR]);
    lemma_count_sep_absent(name);
    lemma_count_sep_absent(secret);
    assert(seq![SEPARATOR].drop_last() =~= Seq::<char>::empty());
    assert(count_sep(Seq::<char>::empty()) == 0);
    assert(count_sep(seq![SEPARATOR]) == 1);
    lemma_first_sep_of_line(name, secret, 0);
    assert(l.subrange(0, name.len() as int) =~= name);
    assert(l.subrange(name.len() as int + 1, l.len() as int) =~= secret);
}

/// Within one window the countdown falls by exactly the seconds that passed
/// and the code stays the same; from one window to the next, less than a
/// period apart, the countdown goes back up, and at the first second of a
/// window it shows the whole period.
pub proof fn lemma_countdown(secret: Seq<char>, t1: nat, t2: nat)
    requires
        t1 <= t2,
    ensures
        t1 / (PERIOD as nat) == t2 / (PERIOD as nat) ==> remaining_of(t1) >= remaining_of(t2)
            && remaining_of(t1) - remaining_of(t2) == t2 - t1 && code_of(secret, t1) == code_of(
            secret,
            t2,
        ),
        t1 / (PERIOD as nat) < t2 / (PERIOD as nat) && t2 - t1 < PERIOD ==> remaining_of(t2)
            > remaining_of(t1),
        t2 % (PERIOD as nat) == 0 ==> remaining_of(t2) == PERIOD,
{
}

} // verus!
