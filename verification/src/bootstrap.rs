//! Parsing of bootstrap peer lists.
//!
//! A bootstrap argument is a comma-separated list of entries of the form
//! `<peer-identity>@<host>:<port>`.  Each entry is parsed independently,
//! and one malformed entry rejects the whole argument.  Resolving the host
//! name and validating the identity against the network's key format are
//! the network layer's business; the shape of the argument is decided
//! here.

use vstd::prelude::*;

use crate::PeerId;

verus! {

/// Why a bootstrap argument was rejected.
#[derive(Clone, Copy, Debug, PartialEq, Eq, Structural)]
pub enum ParseError {
    /// An entry has no `@` separating identity from address.
    MissingAt,
    /// An entry's identity part is empty.
    EmptyIdentity,
    /// An entry's address has no `:` separating host from port.
    MissingPort,
    /// An entry's host part is empty.
    EmptyHost,
    /// An entry's port is empty, not a number, or out of range.
    BadPort,
}

/// One parsed bootstrap entry: who to connect to, and where.
#[derive(Debug)]
pub struct BootstrapPeer {
    /// The peer's identity, as given.
    pub peer: PeerId,
    /// Host name or address, not yet resolved.
    pub host: String,
    /// Port number.
    pub port: u16,
}

/// Index of the first occurrence of `c` in `s`, or `s.len()` if absent.
pub open spec fn first_idx(s: Seq<char>, c: char) -> int
    decreases s.len(),
{
    if s.len() == 0 {
        0
    } else if s[0] == c {
        0
    } else {
        1 + first_idx(s.drop_first(), c)
    }
}

/// Index of the last occurrence of `c` in `s`, or `-1` if absent.
pub open spec fn last_idx(s: Seq<char>, c: char) -> int
    decreases s.len(),
{
    if s.len() == 0 {
        -1
    } else if s.last() == c {
        s.len() - 1
    } else {
        last_idx(s.drop_last(), c)
    }
}

/// A decimal digit.
pub open spec fn is_digit(c: char) -> bool {
    48 <= c as u32 <= 57
}

/// All characters are decimal digits.
pub open spec fn all_digits(s: Seq<char>) -> bool {
    forall|i: int| 0 <= i < s.len() ==> is_digit(#[trigger] s[i])
}

/// The number a digit string denotes.
pub open spec fn digits_val(s: Seq<char>) -> int
    decreases s.len(),
{
    if s.len() == 0 {
        0
    } else {
        digits_val(s.drop_last()) * 10 + (s.last() as u32 - 48)
    }
}

/// The entry splits as `identity@host:port`: a nonempty identity before
/// the first `@`, a nonempty host before the last `:` of the remainder,
/// and a port of decimal digits no larger than 65535.
pub open spec fn entry_ok(s: Seq<char>) -> bool {
    let a = first_idx(s, '@');
    let rest = s.skip(a + 1);
    let c = last_idx(rest, ':');
    let port = rest.skip(c + 1);
    &&& 0 < a < s.len()
    &&& c >= 1
    &&& port.len() > 0
    &&& all_digits(port)
    &&& digits_val(port) <= 65535
}

/// The identity part of a well-formed entry.
pub open spec fn entry_id(s: Seq<char>) -> Seq<char> {
    s.take(first_idx(s, '@'))
}

/// The host part of a well-formed entry.
pub open spec fn entry_host(s: Seq<char>) -> Seq<char> {
    let rest = s.skip(first_idx(s, '@') + 1);
    rest.take(last_idx(rest, ':'))
}

/// The port value of a well-formed entry.
pub open spec fn entry_port(s: Seq<char>) -> int {
    let rest = s.skip(first_idx(s, '@') + 1);
    digits_val(rest.skip(last_idx(rest, ':') + 1))
}

/// The error a malformed entry draws, checking in entry order.
pub open spec fn entry_err(s: Seq<char>) -> ParseError {
    let a = first_idx(s, '@');
    let rest = s.skip(a + 1);
    let c = last_idx(rest, ':');
    if a == s.len() {
        ParseError::MissingAt
    } else if a == 0 {
        ParseError::EmptyIdentity
    } else if c == -1 {
        ParseError::MissingPort
    } else if c == 0 {
        ParseError::EmptyHost
    } else {
        ParseError::BadPort
    }
}

/// `b` is the parse of the well-formed entry `s`.
pub open spec fn entry_matches(b: BootstrapPeer, s: Seq<char>) -> bool {
    &&& b.peer.id@ == entry_id(s)
    &&& b.host@ == entry_host(s)
    &&& b.port as int == entry_port(s)
}

proof fn lemma_first_idx_is(s: Seq<char>, c: char, i: int)
    requires
        0 <= i <= s.len(),
        forall|j: int| 0 <= j < i ==> s[j] != c,
        i < s.len() ==> s[i] == c,
    ensures
        first_idx(s, c) == i,
    decreases s.len(),
{
    if s.len() > 0 && s[0] != c {
        let s2 = s.drop_first();
        assert forall|j: int| 0 <= j < i - 1 implies s2[j] != c by {
            assert(s2[j] == s[j + 1]);
        }
        assert(i - 1 < s2.len() ==> s2[i - 1] == c);
        lemma_first_idx_is(s2, c, i - 1);
    }
}

proof fn lemma_last_idx_is(s: Seq<char>, c: char, i: int)
    requires
        -1 <= i < s.len(),
        forall|j: int| i < j < s.len() ==> s[j] != c,
        i >= 0 ==> s[i] == c,
    ensures
        last_idx(s, c) == i,
    decreases s.len(),
{
    if s.len() > 0 && s.last() != c {
        let s2 = s.drop_last();
        assert forall|j: int| i < j < s2.len() implies s2[j] != c by {
            assert(s2[j] == s[j]);
        }
        lemma_last_idx_is(s2, c, i);
    }
}

proof fn lemma_digits_prefix_large(s: Seq<char>, i: int)
    requires
        all_digits(s),
        0 <= i <= s.len(),
        digits_val(s.take(i)) > 65535,
    ensures
        digits_val(s) > 65535,
    decreases s.len() - i,
{
    if i < s.len() {
        let t = s.take(i + 1);
        assert(t.drop_last() =~= s.take(i));
        assert(all_digits(s.take(i + 1))) by {
            assert(forall|j: int| 0 <= j < i + 1 ==> s.take(i + 1)[j] == s[j]);
        }
        assert(digits_val(t) == digits_val(s.take(i)) * 10 + (t.last() as u32 - 48));
        lemma_digits_prefix_large(s, i + 1);
    } else {
        assert(s.take(i) =~= s);
    }
}

/// Parse one `identity@host:port` entry.
///
/// Succeeds exactly on well-formed entries and returns the error of the
/// first malformed part otherwise.
#[verifier::loop_isolation(false)]
pub fn parse_bootstrap_entry(s: &str) -> (r: Result<BootstrapPeer, ParseError>)
    ensures
        match r {
            Ok(b) => entry_ok(s@) && entry_matches(b, s@),
            Err(e) => !entry_ok(s@) && e == entry_err(s@),
        },
{
    let n = s.unicode_len();
    // Find the first '@'.
    let mut a: usize = 0;
    while a < n && s.get_char(a) as u32 != 64
        invariant
            0 <= a <= n,
            forall|j: int| 0 <= j < a ==> s@[j] != '@',
        decreases n - a,
    {
        a = a + 1;
    }
    proof {
        lemma_first_idx_is(s@, '@', a as int);
    }
    if a == n {
        return Err(ParseError::MissingAt);
    }
    if a == 0 {
        return Err(ParseError::EmptyIdentity);
    }
    let ghost rest = s@.skip(a + 1);
    // Find the last ':' strictly after the '@'.
    let mut j: usize = n;
    let mut cpos: usize = 0;
    let mut found: bool = false;
    while j > a + 1 && !found
        invariant
            a + 1 <= j <= n,
            !found ==> forall|t: int| j <= t < n ==> s@[t] != ':',
            found ==> a + 1 <= j && j < n && s@[j as int] == ':' && cpos == j && forall|t: int|
                j < t < n ==> s@[t] != ':',
        decreases j - a,
    {
        let jj = j - 1;
        if s.get_char(jj) as u32 == 58 {
            cpos = jj;
            found = true;
            j = jj;
        } else {
            j = jj;
        }
    }
    proof {
        assert forall|t: int| 0 <= t < rest.len() implies rest[t] == s@[a + 1 + t] by {}
        if found {
            lemma_last_idx_is(rest, ':', cpos - (a + 1));
        } else {
            lemma_last_idx_is(rest, ':', -1);
        }
    }
    if !found {
        return Err(ParseError::MissingPort);
    }
    if cpos == a + 1 {
        return Err(ParseError::EmptyHost);
    }
    if cpos + 1 == n {
        return Err(ParseError::BadPort);
    }
    // Parse the port digits.
    let ghost port = rest.skip(last_idx(rest, ':') + 1);
    proof {
        assert(port =~= s@.subrange(cpos + 1, n as int));
    }
    let mut val: u32 = 0;
    let mut p: usize = cpos + 1;
    while p < n
        invariant
            cpos + 1 <= p <= n,
            all_digits(port.take(p - (cpos + 1))),
            val == digits_val(port.take(p - (cpos + 1))),
            val <= 65535,
        decreases n - p,
    {
        let cu = s.get_char(p) as u32;
        if cu < 48 || cu > 57 {
            proof {
                assert(port[p - (cpos + 1)] == s@[p as int]);
                assert(!all_digits(port));
            }
            return Err(ParseError::BadPort);
        }
        let d = cu - 48;
        let ghost k0 = p - (cpos + 1);
        proof {
            assert(port.take(k0 + 1).drop_last() =~= port.take(k0));
            assert(port.take(k0 + 1).last() == s@[p as int]);
        }
        val = val * 10 + d;
        p = p + 1;
        if val > 65535 {
            proof {
                assert(digits_val(port.take(p - (cpos + 1))) > 65535);
                if all_digits(port) {
                    lemma_digits_prefix_large(port, p - (cpos + 1));
                }
            }
            return Err(ParseError::BadPort);
        }
    }
    proof {
        assert(port.take(port.len() as int) =~= port);
    }
    let id = s.substring_char(0, a).to_owned();
    let host = s.substring_char(a + 1, cpos).to_owned();
    proof {
        assert(entry_id(s@) =~= s@.subrange(0, a as int));
        assert(entry_host(s@) =~= s@.subrange(a + 1, cpos as int));
    }
    Ok(BootstrapPeer { peer: PeerId { id }, host, port: val as u16 })
}

/// Bounds of [`first_idx`].
proof fn lemma_first_idx_bounds(s: Seq<char>, c: char)
    ensures
        0 <= first_idx(s, c) <= s.len(),
    decreases s.len(),
{
    if s.len() > 0 && s[0] != c {
        lemma_first_idx_bounds(s.drop_first(), c);
    }
}

/// The comma-separated segments of a bootstrap argument.  An argument
/// without a comma is one segment; every comma ends a segment, so an
/// empty argument is one empty segment and a trailing comma adds one.
pub open spec fn split_commas(s: Seq<char>) -> Seq<Seq<char>>
    decreases s.len(),
    via split_commas_decreases
{
    let c = first_idx(s, ',');
    if c == s.len() {
        seq![s]
    } else {
        seq![s.take(c)] + split_commas(s.skip(c + 1))
    }
}

#[via_fn]
proof fn split_commas_decreases(s: Seq<char>) {
    lemma_first_idx_bounds(s, ',');
}

/// Every segment is a well-formed entry.
pub open spec fn entries_ok(parts: Seq<Seq<char>>) -> bool {
    forall|i: int| 0 <= i < parts.len() ==> entry_ok(#[trigger] parts[i])
}

/// The parsed entries correspond to the segments, one for one, in order.
pub open spec fn entries_match(v: Seq<BootstrapPeer>, parts: Seq<Seq<char>>) -> bool {
    &&& v.len() == parts.len()
    &&& forall|i: int| 0 <= i < parts.len() ==> entry_matches(#[trigger] v[i], parts[i])
}

/// The parse failed on the first malformed segment, with its error.
pub open spec fn parse_fails(parts: Seq<Seq<char>>, e: ParseError) -> bool {
    exists|i: int|
        {
            &&& 0 <= i < parts.len()
            &&& !entry_ok(#[trigger] parts[i])
            &&& e == entry_err(parts[i])
            &&& forall|j: int| 0 <= j < i ==> entry_ok(#[trigger] parts[j])
        }
}

/// Parse a comma-separated bootstrap peer list.
///
/// Each entry is parsed independently with [`parse_bootstrap_entry`]; the
/// first malformed entry rejects the whole argument with its error.
pub fn parse_bootstrap(s: &str) -> (r: Result<Vec<BootstrapPeer>, ParseError>)
    ensures
        match r {
            Ok(v) => entries_ok(split_commas(s@)) && entries_match(v@, split_commas(s@)),
            Err(e) => parse_fails(split_commas(s@), e),
        },
{
    let ghost parts = split_commas(s@);
    let n = s.unicode_len();
    let mut out: Vec<BootstrapPeer> = Vec::new();
    let mut start: usize = 0;
    proof {
        assert(s@.skip(0) =~= s@);
        assert(parts.skip(0) =~= parts);
    }
    loop
        invariant_except_break
            0 <= start <= n,
            n == s@.len(),
            parts == split_commas(s@),
            out@.len() <= parts.len(),
            parts.skip(out@.len() as int) == split_commas(s@.skip(start as int)),
            forall|i: int|
                0 <= i < out@.len() ==> entry_ok(#[trigger] parts[i]) && entry_matches(
                    out@[i],
                    parts[i],
                ),
        ensures
            out@.len() == parts.len(),
            forall|i: int|
                0 <= i < out@.len() ==> entry_ok(#[trigger] parts[i]) && entry_matches(
                    out@[i],
                    parts[i],
                ),
        decreases n - start,
    {
        let ghost done = out@.len() as int;
        let ghost start0 = start as int;
        let ghost rem = s@.skip(start0);
        // Find the next comma at or after `start`.
        let mut c: usize = start;
        while c < n && s.get_char(c) as u32 != 44
            invariant
                n == s@.len(),
                start <= c <= n,
                forall|j: int| start <= j < c ==> s@[j] != ',',
            decreases n - c,
        {
            c = c + 1;
        }
        proof {
            assert forall|t: int| 0 <= t < rem.len() implies rem[t] == s@[start + t] by {}
            lemma_first_idx_is(rem, ',', c - start);
        }
        let seg = s.substring_char(start, c);
        proof {
            assert(seg@ =~= rem.take(c - start0));
            if c == n {
                assert(rem.take(c - start0) =~= rem);
                assert(split_commas(rem) == seq![rem]);
            } else {
                assert(split_commas(rem) == seq![seg@] + split_commas(rem.skip(c - start0 + 1)));
            }
            assert(parts.len() - done == split_commas(rem).len());
            assert(done < parts.len());
            assert(parts[done] == parts.skip(done)[0]);
            assert(parts[done] == seg@);
        }
        match parse_bootstrap_entry(seg) {
            Err(e) => {
                proof {
                    assert(!entry_ok(parts[done]) && e == entry_err(parts[done]));
                    assert(parse_fails(parts, e));
                }
                return Err(e);
            },
            Ok(b) => {
                out.push(b);
            },
        }
        if c == n {
            proof {
                assert(parts.skip(done) =~= seq![seg@]);
                assert(out@.len() == parts.len());
            }
            break;
        }
        start = c + 1;
        proof {
            assert(rem.skip(c - start0 + 1) =~= s@.skip(start as int));
            assert(parts.skip(done) == seq![seg@] + split_commas(s@.skip(start as int)));
            let x = split_commas(s@.skip(start as int));
            assert(parts.len() - done == 1 + x.len());
            assert forall|t: int| 0 <= t < x.len() implies parts.skip(done + 1)[t] == x[t] by {
                assert(parts.skip(done + 1)[t] == parts[done + 1 + t]);
                assert(parts.skip(done)[t + 1] == parts[done + 1 + t]);
                assert((seq![seg@] + x)[t + 1] == x[t]);
            }
            assert(parts.skip(done + 1) =~= x);
        }
    }
    Ok(out)
}

} // verus!
