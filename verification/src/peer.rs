//! Peer identity: a username together with the IPv4 address the peer
//! listens on. One instance represents "self" per process, obtained once at
//! startup. Peers are immutable once constructed and compared by value
//! equality on both fields; they carry no ordering.

use vstd::prelude::*;

use vstd::string::StrSliceExecFns;

verus! {

/// An IPv4 address held as four plain octets, so that the protocol logic
/// never depends on a transport library's address type. All peers listen on
/// one fixed port, so the address alone identifies an endpoint.
#[derive(Clone, Copy, PartialEq, Eq, Structural, Debug)]
pub struct Ipv4Address {
    pub octet0: u8,
    pub octet1: u8,
    pub octet2: u8,
    pub octet3: u8,
}

/// The abstract value of a [`Peer`]: its username as a character sequence
/// and its address.
#[verifier::ext_equal]
pub struct PeerView {
    pub username: Seq<char>,
    pub address: Ipv4Address,
}

/// Identity of one participating process.
#[derive(Debug)]
pub struct Peer {
    pub username: String,
    pub address: Ipv4Address,
}

impl View for Peer {
    type V = PeerView;

    open spec fn view(&self) -> PeerView {
        PeerView { username: self.username@, address: self.address }
    }
}

impl Peer {
    pub fn new(username: String, address: Ipv4Address) -> (r: Peer)
        ensures
            r@ == (PeerView { username: username@, address }),
    {
        Peer { username, address }
    }

    pub fn username(&self) -> (r: &String)
        ensures
            r@ == self@.username,
    {
        &self.username
    }

    pub fn addr(&self) -> (r: Ipv4Address)
        ensures
            r == self@.address,
    {
        self.address
    }
}

impl Clone for Peer {
    fn clone(&self) -> (r: Self)
        ensures
            r == *self,
    {
        Peer { username: self.username.clone(), address: self.address }
    }
}

impl PartialEq for Peer {
    fn eq(&self, other: &Self) -> (r: bool) {
        self.username == other.username && self.address == other.address
    }
}

impl vstd::std_specs::cmp::PartialEqSpecImpl for Peer {
    open spec fn obeys_eq_spec() -> bool {
        true
    }

    open spec fn eq_spec(&self, other: &Self) -> bool {
        self@ == other@
    }
}

// ---------------------------------------------------------------------------
// Dotted-decimal addresses: the textual form an address arrives in, from the
// command line or from the host's own configuration.
// ---------------------------------------------------------------------------

/// A decimal digit.
pub open spec fn is_digit(c: char) -> bool {
    '0' <= c && c <= '9'
}

/// The numeric value of one digit.
pub open spec fn digit_val(c: char) -> int {
    c as u32 - '0' as u32
}

/// The numeric value of a digit string, most significant digit first.
pub open spec fn digits_value(s: Seq<char>) -> int
    decreases s.len(),
{
    if s.len() == 0 {
        0
    } else {
        digits_value(s.drop_last()) * 10 + digit_val(s.last())
    }
}

/// The length of the leading run of digits.
pub open spec fn digit_run(s: Seq<char>) -> int
    decreases s.len(),
{
    if s.len() == 0 || !is_digit(s[0]) {
        0
    } else {
        1 + digit_run(s.skip(1))
    }
}

/// One dotted-decimal octet at the front of `s`: one to three digits, no
/// leading zero unless the octet is exactly `0`, value at most 255. Yields
/// the octet and what follows its digits.
pub open spec fn spec_take_ipv4_octet(s: Seq<char>) -> Option<(u8, Seq<char>)> {
    let n = digit_run(s);
    if 1 <= n <= 3 && (n == 1 || s[0] != '0') && digits_value(s.take(n)) <= 255 {
        Some((digits_value(s.take(n)) as u8, s.skip(n)))
    } else {
        None
    }
}

/// The dotted-decimal address grammar: exactly four octets joined by single
/// dots, and nothing else.
pub open spec fn spec_parse_ipv4(s: Seq<char>) -> Option<Ipv4Address> {
    match spec_take_ipv4_octet(s) {
        Some((o0, r0)) => if r0.len() >= 1 && r0[0] == '.' {
            match spec_take_ipv4_octet(r0.skip(1)) {
                Some((o1, r1)) => if r1.len() >= 1 && r1[0] == '.' {
                    match spec_take_ipv4_octet(r1.skip(1)) {
                        Some((o2, r2)) => if r2.len() >= 1 && r2[0] == '.' {
                            match spec_take_ipv4_octet(r2.skip(1)) {
                                Some((o3, r3)) => if r3.len() == 0 {
                                    Some(
                                        Ipv4Address {
                                            octet0: o0,
                                            octet1: o1,
                                            octet2: o2,
                                            octet3: o3,
                                        },
                                    )
                                } else {
                                    None
                                },
                                None => None,
                            }
                        } else {
                            None
                        },
                        None => None,
                    }
                } else {
                    None
                },
                None => None,
            }
        } else {
            None
        },
        None => None,
    }
}

/// What `digit_run` returns: the position of the first non-digit, or the
/// whole length when every character is a digit.
proof fn lemma_digit_run(s: Seq<char>)
    ensures
        0 <= digit_run(s) <= s.len(),
        forall|k: int| 0 <= k < digit_run(s) ==> is_digit(#[trigger] s[k]),
        digit_run(s) < s.len() ==> !is_digit(s[digit_run(s)]),
    decreases s.len(),
{
    if s.len() == 0 || !is_digit(s[0]) {
    } else {
        lemma_digit_run(s.skip(1));
        assert forall|k: int| 0 <= k < digit_run(s) implies is_digit(s[k]) by {
            if k > 0 {
                assert(s.skip(1)[k - 1] == s[k]);
                assert(is_digit(s.skip(1)[k - 1]));
            }
        }
        if digit_run(s) < s.len() {
            assert(s.skip(1)[digit_run(s) - 1] == s[digit_run(s)]);
        }
    }
}

/// A digit string of at most three digits values at most 999.
proof fn lemma_digits_value_bound(s: Seq<char>)
    requires
        forall|k: int| 0 <= k < s.len() ==> is_digit(#[trigger] s[k]),
    ensures
        0 <= digits_value(s),
        s.len() <= 1 ==> digits_value(s) <= 9,
        s.len() <= 2 ==> digits_value(s) <= 99,
        s.len() <= 3 ==> digits_value(s) <= 999,
    decreases s.len(),
{
    if s.len() > 0 {
        lemma_digits_value_bound(s.drop_last());
    }
}

/// Skipping twice is skipping the sum.
proof fn lemma_skip_twice<T>(s: Seq<T>, i: int, j: int)
    requires
        0 <= i,
        0 <= j,
        i + j <= s.len(),
    ensures
        s.skip(i).skip(j) == s.skip(i + j),
{
    assert(s.skip(i).skip(j) =~= s.skip(i + j));
}

/// Parse one octet of `s` starting at character `i`.
#[verifier::loop_isolation(false)]
fn take_ipv4_octet(s: &Vec<char>, i: usize) -> (r: Option<(u8, usize)>)
    requires
        i <= s@.len(),
    ensures
        match r {
            Some((v, j)) => {
                &&& i < j <= s@.len()
                &&& spec_take_ipv4_octet(s@.skip(i as int)) == Some((v, s@.skip(j as int)))
            },
            None => spec_take_ipv4_octet(s@.skip(i as int)) is None,
        },
{
    let ghost t = s@.skip(i as int);
    proof {
        lemma_digit_run(t);
    }
    let mut j: usize = i;
    while j < s.len() && s[j] >= '0' && s[j] <= '9'
        invariant
            i <= j <= s@.len(),
            forall|k: int| 0 <= k < j - i ==> is_digit(#[trigger] t[k]),
        decreases s@.len() - j,
    {
        proof {
            assert(t[j - i] == s@[j as int]);
        }
        j = j + 1;
    }
    proof {
        if j < s@.len() {
            assert(t[j - i] == s@[j as int]);
        }
        if digit_run(t) < j - i {
            assert(is_digit(t[digit_run(t)]));
            assert(false);
        }
        if digit_run(t) > j - i {
            assert(is_digit(t[j - i]));
            assert(false);
        }
        assert(digit_run(t) == j - i);
    }
    let run = j - i;
    if run == 0 || run > 3 {
        return None;
    }
    if run > 1 && s[i] == '0' {
        proof {
            assert(t[0] == s@[i as int]);
        }
        return None;
    }
    let ghost part = t.take(run as int);
    proof {
        assert(forall|k: int| 0 <= k < part.len() ==> part[k] == t[k]);
    }
    let mut v: u32 = 0;
    let mut k: usize = i;
    while k < j
        invariant
            i <= k <= j,
            v == digits_value(t.take(k - i)),
        decreases j - k,
    {
        proof {
            lemma_digits_value_bound(t.take(k - i));
            assert(t[k - i] == s@[k as int]);
            assert(is_digit(t[k - i]));
        }
        let c = s[k];
        let d = c as u32 - '0' as u32;
        v = v * 10 + d;
        proof {
            assert(t.take(k - i + 1).drop_last() =~= t.take(k - i));
            assert(t.take(k - i + 1).last() == t[k - i]);
        }
        k = k + 1;
    }
    proof {
        lemma_digits_value_bound(part);
    }
    if v > 255 {
        return None;
    }
    proof {
        lemma_skip_twice(s@, i as int, run as int);
    }
    Some((v as u8, j))
}

/// Parse a dotted-decimal address, `10.0.0.7` say. Returns `None` unless
/// the whole input is exactly four octets joined by single dots.
#[verifier::loop_isolation(false)]
#[verifier::rlimit(50)]
pub fn parse_ipv4(s: &str) -> (r: Option<Ipv4Address>)
    ensures
        r == spec_parse_ipv4(s@),
{
    let n = s.unicode_len();
    let mut cs: Vec<char> = Vec::new();
    let mut i: usize = 0;
    while i < n
        invariant
            n == s@.len(),
            i <= n,
            cs@ == s@.take(i as int),
        decreases n - i,
    {
        cs.push(s.get_char(i));
        proof {
            assert(s@.take(i + 1) =~= s@.take(i as int).push(s@[i as int]));
        }
        i = i + 1;
    }
    proof {
        assert(s@.take(n as int) =~= s@);
        assert(cs@.skip(0) =~= cs@);
    }
    match take_ipv4_octet(&cs, 0) {
        None => None,
        Some((o0, p0)) => {
            if p0 < cs.len() && cs[p0] == '.' {
                proof {
                    lemma_skip_twice(cs@, p0 as int, 1);
                }
                match take_ipv4_octet(&cs, p0 + 1) {
                    None => None,
                    Some((o1, p1)) => {
                        if p1 < cs.len() && cs[p1] == '.' {
                            proof {
                                lemma_skip_twice(cs@, p1 as int, 1);
                            }
                            match take_ipv4_octet(&cs, p1 + 1) {
                                None => None,
                                Some((o2, p2)) => {
                                    if p2 < cs.len() && cs[p2] == '.' {
                                        proof {
                                            lemma_skip_twice(cs@, p2 as int, 1);
                                        }
                                        match take_ipv4_octet(&cs, p2 + 1) {
                                            None => None,
                                            Some((o3, p3)) => {
                                                if p3 == cs.len() {
                                                    Some(
                                                        Ipv4Address {
                                                            octet0: o0,
                                                            octet1: o1,
                                                            octet2: o2,
                                                            octet3: o3,
                                                        },
                                                    )
                                                } else {
                                                    None
                                                }
                                            },
                                        }
                                    } else {
                                        None
                                    }
                                },
                            }
                        } else {
                            None
                        }
                    },
                }
            } else {
                None
            }
        },
    }
}

} // verus!
