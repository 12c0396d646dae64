use vstd::prelude::*;

use crate::num::{copy_range, dec_bytes, dec_of, push_all};

verus! {

/// A target to connect to: either a literal socket address, whose textual IP
/// the caller has already validated and rendered, or a host name to resolve
/// at connect time.  Both carry a port.
#[derive(Clone, Debug)]
pub enum AddrPort {
    Socket { ip: Vec<u8>, port: u16 },
    Host { host: Vec<u8>, port: u16 },
}

/// "Invalid address: " followed by the rejected input.
pub open spec fn invalid_addr_msg(s: Seq<u8>) -> Seq<u8> {
    seq![
        73u8, 110u8, 118u8, 97u8, 108u8, 105u8, 100u8, 32u8, 97u8, 100u8, 100u8, 114u8, 101u8,
        115u8, 115u8, 58u8, 32u8,
    ] + s
}

/// "Invalid port: " followed by the rejected port text.
pub open spec fn invalid_port_msg(s: Seq<u8>) -> Seq<u8> {
    seq![73u8, 110u8, 118u8, 97u8, 108u8, 105u8, 100u8, 32u8, 112u8, 111u8, 114u8, 116u8, 58u8, 32u8]
        + s
}

/// The index of the last `':'` in `s`, or `-1` when there is none.
pub open spec fn last_colon(s: Seq<u8>) -> int
    decreases s.len(),
{
    if s.len() == 0 {
        -1
    } else if s.last() == 58 {
        s.len() - 1
    } else {
        last_colon(s.drop_last())
    }
}

pub open spec fn all_digits(s: Seq<u8>) -> bool {
    forall|i: int| 0 <= i < s.len() ==> 48 <= #[trigger] s[i] <= 57
}

/// The value of a sequence of decimal digits, most significant first.
pub open spec fn dec_value(s: Seq<u8>) -> int
    decreases s.len(),
{
    if s.len() == 0 {
        0
    } else {
        dec_value(s.drop_last()) * 10 + (s.last() - 48)
    }
}

/// The digits of a port string: everything after an optional leading `'+'`.
pub open spec fn port_digits(s: Seq<u8>) -> Seq<u8> {
    if s.len() > 0 && s[0] == 43 {
        s.drop_first()
    } else {
        s
    }
}

/// A port string parses the way the standard library reads a `u16`: an
/// optional leading `'+'`, then at least one decimal digit, and a value of at
/// most 65535.
pub open spec fn valid_port_str(s: Seq<u8>) -> bool {
    &&& port_digits(s).len() > 0
    &&& all_digits(port_digits(s))
    &&& dec_value(port_digits(s)) <= 65535
}

pub open spec fn port_value(s: Seq<u8>) -> int {
    dec_value(port_digits(s))
}

proof fn lemma_dec_value_nonneg(s: Seq<u8>)
    requires
        all_digits(s),
    ensures
        dec_value(s) >= 0,
    decreases s.len(),
{
    if s.len() > 0 {
        assert(all_digits(s.drop_last()));
        lemma_dec_value_nonneg(s.drop_last());
    }
}

/// With every byte a digit, the value of a prefix never exceeds the value of
/// the whole string.
proof fn lemma_dec_value_prefix(s: Seq<u8>, k: int)
    requires
        all_digits(s),
        0 <= k <= s.len(),
    ensures
        dec_value(s.take(k)) <= dec_value(s),
    decreases s.len() - k,
{
    if k < s.len() {
        lemma_dec_value_prefix(s, k + 1);
        assert(s.take(k + 1).drop_last() =~= s.take(k));
        assert(all_digits(s.take(k)));
        lemma_dec_value_nonneg(s.take(k));
        assert(dec_value(s.take(k + 1)) == dec_value(s.take(k)) * 10 + (s[k] - 48));
    } else {
        assert(s.take(k) =~= s);
    }
}

/// Read a port number the way the standard library reads a `u16`, returning
/// `None` exactly on the inputs the standard library rejects.
pub fn parse_u16(s: &[u8]) -> (r: Option<u16>)
    ensures
        match r {
            Some(p) => valid_port_str(s@) && p as int == port_value(s@),
            None => !valid_port_str(s@),
        },
{
    let n = s.len();
    let start: usize = if n > 0 && s[0] == 43 {
        1
    } else {
        0
    };
    let ghost d = port_digits(s@);
    proof {
        assert(d =~= s@.subrange(start as int, n as int));
    }
    if start >= n {
        return None;
    }
    let mut acc: u32 = 0;
    let mut k: usize = start;
    while k < n
        invariant
            start <= k <= n,
            n == s@.len(),
            d == port_digits(s@),
            d == s@.subrange(start as int, n as int),
            all_digits(d.take(k - start)),
            acc <= 65535,
            acc as int == dec_value(d.take(k - start)),
        decreases n - k,
    {
        let c = s[k];
        if c < 48 || c > 57 {
            proof {
                assert(d[k - start] == c);
            }
            return None;
        }
        acc = acc * 10 + ((c - 48) as u32);
        proof {
            assert(d.take(k + 1 - start).drop_last() =~= d.take(k - start));
            assert(d.take(k + 1 - start).last() == c);
            assert(acc as int == dec_value(d.take(k + 1 - start)));
            assert(all_digits(d.take(k + 1 - start)));
        }
        if acc > 65535 {
            proof {
                if valid_port_str(s@) {
                    lemma_dec_value_prefix(d, k + 1 - start);
                }
            }
            return None;
        }
        k += 1;
    }
    proof {
        assert(d.take(n - start) =~= d);
    }
    Some(acc as u16)
}

impl AddrPort {
    /// The host part: the literal IP text, or the host name.
    pub open spec fn host_of(self) -> Seq<u8> {
        match self {
            AddrPort::Socket { ip, port } => ip@,
            AddrPort::Host { host, port } => host@,
        }
    }

    pub open spec fn port_of(self) -> u16 {
        match self {
            AddrPort::Socket { ip, port } => port,
            AddrPort::Host { host, port } => port,
        }
    }

    /// The textual form: `host:port`, with the IP bracketed when it contains
    /// a colon, as a literal IPv6 address does.
    pub open spec fn render_of(self) -> Seq<u8> {
        match self {
            AddrPort::Socket { ip, port } => (if has_colon(ip@) {
                seq![91u8] + ip@ + seq![93u8, 58u8]
            } else {
                ip@ + seq![58u8]
            }) + dec_of(port as int),
            AddrPort::Host { host, port } => host@ + seq![58u8] + dec_of(port as int),
        }
    }

    /// Split `host:port` text at the last colon, as the relay reads a target
    /// argument that is not a literal socket address.  Returns the error the
    /// caller reports: one message for text without a colon, another for a
    /// port that does not read as a `u16`.
    pub fn parse_host_port(s: &[u8]) -> (r: Result<AddrPort, Vec<u8>>)
        ensures
            ({
                let ci = last_colon(s@);
                match r {
                    Ok(ap) => ci >= 0 && valid_port_str(s@.subrange(ci + 1, s@.len() as int)) && (
                    ap matches AddrPort::Host { host, port } && host@ == s@.subrange(0, ci)
                        && port as int == port_value(s@.subrange(ci + 1, s@.len() as int))),
                    Err(e) => {
                        if ci < 0 {
                            e@ == invalid_addr_msg(s@)
                        } else {
                            !valid_port_str(s@.subrange(ci + 1, s@.len() as int)) && e@
                                == invalid_port_msg(s@.subrange(ci + 1, s@.len() as int))
                        }
                    },
                }
            }),
    {
        let n = s.len();
        proof {
            assert(s@.take(n as int) =~= s@);
        }
        let mut k: usize = n;
        while k > 0
            invariant
                k <= n,
                n == s@.len(),
                last_colon(s@) == last_colon(s@.take(k as int)),
                forall|j: int| k <= j < n ==> s@[j] != 58,
            decreases k,
        {
            proof {
                assert(s@.take(k as int).last() == s@[k - 1]);
                assert(s@.take(k as int).drop_last() =~= s@.take(k - 1));
            }
            if s[k - 1] == 58 {
                let ci = k - 1;
                proof {
                    assert(last_colon(s@) == ci);
                }
                let port_text = copy_range(s, ci + 1, n);
                match parse_u16(port_text.as_slice()) {
                    Some(p) => {
                        let host = copy_range(s, 0, ci);
                        return Ok(AddrPort::Host { host, port: p });
                    },
                    None => {
                        let mut e = invalid_port_prefix();
                        push_all(&mut e, port_text.as_slice());
                        proof {
                            assert(e@ =~= invalid_port_msg(s@.subrange(ci + 1, s@.len() as int)));
                        }
                        return Err(e);
                    },
                }
            }
            k -= 1;
        }
        proof {
            assert(s@.take(0) =~= Seq::<u8>::empty());
            assert(last_colon(s@) == -1);
        }
        let mut e = invalid_addr_prefix();
        push_all(&mut e, s);
        proof {
            assert(e@ =~= invalid_addr_msg(s@));
        }
        Err(e)
    }

    /// Render the address as `host:port` text.
    pub fn render(&self) -> (r: Vec<u8>)
        ensures
            r@ == self.render_of(),
    {
        let mut out: Vec<u8> = Vec::new();
        match self {
            AddrPort::Socket { ip, port } => {
                if has_colon_in(ip.as_slice()) {
                    out.push(91);
                    push_all(&mut out, ip.as_slice());
                    out.push(93);
                    out.push(58);
                } else {
                    push_all(&mut out, ip.as_slice());
                    out.push(58);
                }
                let digits = dec_bytes(*port as usize);
                push_all(&mut out, digits.as_slice());
                proof {
                    assert(out@ =~= self.render_of());
                }
            },
            AddrPort::Host { host, port } => {
                push_all(&mut out, host.as_slice());
                out.push(58);
                let digits = dec_bytes(*port as usize);
                push_all(&mut out, digits.as_slice());
                proof {
                    assert(out@ =~= self.render_of());
                }
            },
        }
        out
    }

    /// The host part as an owned byte string.
    pub fn host(&self) -> (r: Vec<u8>)
        ensures
            r@ == self.host_of(),
    {
        let mut out: Vec<u8> = Vec::new();
        match self {
            AddrPort::Socket { ip, port } => {
                push_all(&mut out, ip.as_slice());
            },
            AddrPort::Host { host, port } => {
                push_all(&mut out, host.as_slice());
            },
        }
        out
    }
}

pub open spec fn has_colon(s: Seq<u8>) -> bool {
    exists|i: int| 0 <= i < s.len() && s[i] == 58
}

/// Whether the bytes contain a colon anywhere.
pub fn has_colon_in(s: &[u8]) -> (r: bool)
    ensures
        r == has_colon(s@),
{
    let n = s.len();
    let mut j: usize = 0;
    while j < n
        invariant
            j <= n,
            n == s@.len(),
            forall|i: int| 0 <= i < j ==> s@[i] != 58,
        decreases n - j,
    {
        if s[j] == 58 {
            return true;
        }
        j += 1;
    }
    false
}

fn invalid_addr_prefix() -> (r: Vec<u8>)
    ensures
        r@ == invalid_addr_msg(Seq::<u8>::empty()),
{
    let mut r: Vec<u8> = Vec::new();
    r.push(73);
    r.push(110);
    r.push(118);
    r.push(97);
    r.push(108);
    r.push(105);
    r.push(100);
    r.push(32);
    r.push(97);
    r.push(100);
    r.push(100);
    r.push(114);
    r.push(101);
    r.push(115);
    r.push(115);
    r.push(58);
    r.push(32);
    proof {
        assert(r@ =~= invalid_addr_msg(Seq::<u8>::empty()));
    }
    r
}

fn invalid_port_prefix() -> (r: Vec<u8>)
    ensures
        r@ == invalid_port_msg(Seq::<u8>::empty()),
{
    let mut r: Vec<u8> = Vec::new();
    r.push(73);
    r.push(110);
    r.push(118);
    r.push(97);
    r.push(108);
    r.push(105);
    r.push(100);
    r.push(32);
    r.push(112);
    r.push(111);
    r.push(114);
    r.push(116);
    r.push(58);
    r.push(32);
    proof {
        assert(r@ =~= invalid_port_msg(Seq::<u8>::empty()));
    }
    r
}

} // verus!
