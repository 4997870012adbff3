//! IPv4 socket addresses (the exit relays sessions are pinned to, and the
//! address the proxy listens on) and the text grammar they are read from.

use vstd::prelude::*;
use crate::table::TableKey;
use crate::text::{all_digits, chars_of, decimal_value, is_digit, parse_decimal};

verus! {

/// An IPv4 address (the four octets, most significant first, packed into a
/// `u32`) and a port.
#[derive(Clone, Copy, Debug, PartialEq, Eq, Structural, Hash)]
pub struct Ipv4SocketAddr {
    pub ip: u32,
    pub port: u16,
}

impl TableKey for Ipv4SocketAddr {
    type Key = Ipv4SocketAddr;

    open spec fn key(&self) -> Ipv4SocketAddr {
        *self
    }

    fn same_key(&self, other: &Self) -> (res: bool) {
        *self == *other
    }

    fn copy_key(&self) -> (res: Self) {
        *self
    }
}

/// One dotted-quad field: one to three digits, no leading zero unless the
/// field is exactly `0`, and a value of at most 255.
pub open spec fn octet_text(t: Seq<char>) -> bool {
    &&& 1 <= t.len() <= 3
    &&& all_digits(t)
    &&& (t.len() > 1 ==> t[0] != '0')
    &&& decimal_value(t) <= 255
}

/// A port field: at least one digit (leading zeros allowed), value at most 65535.
pub open spec fn port_text(t: Seq<char>) -> bool {
    &&& t.len() >= 1
    &&& all_digits(t)
    &&& decimal_value(t) <= 65535
}

/// `s` is `a.b.c.d:port` with the separators at `i1`, `i2`, `i3` (dots) and `i4` (colon).
pub open spec fn socket_fields(s: Seq<char>, i1: int, i2: int, i3: int, i4: int) -> bool {
    &&& 0 < i1 < i2 < i3 < i4 < s.len()
    &&& s[i1] == '.' && s[i2] == '.' && s[i3] == '.' && s[i4] == ':'
    &&& octet_text(s.subrange(0, i1))
    &&& octet_text(s.subrange(i1 + 1, i2))
    &&& octet_text(s.subrange(i2 + 1, i3))
    &&& octet_text(s.subrange(i3 + 1, i4))
    &&& port_text(s.subrange(i4 + 1, s.len() as int))
}

/// The address whose octets are `a`, `b`, `c`, `d`.
pub open spec fn ip_of(a: nat, b: nat, c: nat, d: nat) -> u32 {
    (a * 16777216 + b * 65536 + c * 256 + d) as u32
}

/// The address that the fields at the given separators denote.
pub open spec fn socket_of_fields(s: Seq<char>, i1: int, i2: int, i3: int, i4: int) -> Ipv4SocketAddr {
    Ipv4SocketAddr {
        ip: ip_of(
            decimal_value(s.subrange(0, i1)),
            decimal_value(s.subrange(i1 + 1, i2)),
            decimal_value(s.subrange(i2 + 1, i3)),
            decimal_value(s.subrange(i3 + 1, i4)),
        ),
        port: decimal_value(s.subrange(i4 + 1, s.len() as int)) as u16,
    }
}

/// What `SocketAddrV4::from_str` accepts: `a.b.c.d:port`, nothing before or after.
pub open spec fn spec_parse_socket_addr(s: Seq<char>) -> Option<Ipv4SocketAddr> {
    if exists|i1: int, i2: int, i3: int, i4: int| socket_fields(s, i1, i2, i3, i4) {
        let (i1, i2, i3, i4) = choose|i1: int, i2: int, i3: int, i4: int|
            socket_fields(s, i1, i2, i3, i4);
        Some(socket_of_fields(s, i1, i2, i3, i4))
    } else {
        None
    }
}

/// `s[pos..end]` is a run of digits that ends at `end`.
pub open spec fn digit_run(s: Seq<char>, pos: int, end: int) -> bool {
    &&& 0 <= pos <= end <= s.len()
    &&& all_digits(s.subrange(pos, end))
    &&& (end < s.len() ==> !is_digit(s[end]))
}

/// A maximal run of digits starting at `pos` has only one end.
pub proof fn lemma_digit_run_unique(s: Seq<char>, pos: int, e1: int, e2: int)
    requires
        digit_run(s, pos, e1),
        digit_run(s, pos, e2),
    ensures
        e1 == e2,
{
    if e1 < e2 {
        assert(is_digit(s.subrange(pos, e2)[e1 - pos]));
    } else if e2 < e1 {
        assert(is_digit(s.subrange(pos, e1)[e2 - pos]));
    }
}

/// The end of the run of digits that starts at `pos`.
fn scan_digits(chars: &Vec<char>, pos: usize) -> (end: usize)
    requires
        pos <= chars.len(),
    ensures
        digit_run(chars@, pos as int, end as int),
{
    let mut end = pos;
    while end < chars.len() && '0' <= chars[end] && chars[end] <= '9'
        invariant
            pos <= end <= chars.len(),
            all_digits(chars@.subrange(pos as int, end as int)),
        decreases chars.len() - end,
    {
        end = end + 1;
        assert(all_digits(chars@.subrange(pos as int, end as int))) by {
            assert forall|j: int| 0 <= j < end - pos implies is_digit(
                #[trigger] chars@.subrange(pos as int, end as int)[j],
            ) by {
                if j < end - pos - 1 {
                    assert(chars@.subrange(pos as int, end as int)[j] == chars@.subrange(
                        pos as int,
                        end - 1,
                    )[j]);
                }
            }
        }
    }
    end
}

/// The value of the field `chars[start..end]` if it is a dotted-quad field.
fn octet_value(chars: &Vec<char>, start: usize, end: usize) -> (res: Option<u32>)
    requires
        start <= end <= chars.len(),
    ensures
        res == if octet_text(chars@.subrange(start as int, end as int)) {
            Some(decimal_value(chars@.subrange(start as int, end as int)) as u32)
        } else {
            None::<u32>
        },
{
    let len = end - start;
    if len < 1 || len > 3 {
        return None;
    }
    if len > 1 && chars[start] == '0' {
        assert(chars@.subrange(start as int, end as int)[0] == '0');
        return None;
    }
    match parse_decimal(chars, start, end) {
        Some(v) => if v > 255 {
            None
        } else {
            Some(v as u32)
        },
        None => None,
    }
}

/// The value of the field `chars[start..end]` if it is a port field.
fn port_value(chars: &Vec<char>, start: usize, end: usize) -> (res: Option<u16>)
    requires
        start <= end <= chars.len(),
    ensures
        res == if port_text(chars@.subrange(start as int, end as int)) {
            Some(decimal_value(chars@.subrange(start as int, end as int)) as u16)
        } else {
            None::<u16>
        },
{
    if end == start {
        return None;
    }
    match parse_decimal(chars, start, end) {
        Some(v) => if v > 65535 {
            None
        } else {
            Some(v as u16)
        },
        None => None,
    }
}

/// `SocketAddrV4::from_str`: reads `a.b.c.d:port`.
///
/// The scan finds where each run of digits ends and whether the right
/// separator follows; any text of the grammar has its separators exactly
/// there, since its fields are runs of digits.
pub fn parse_socket_addr(s: &str) -> (res: Option<Ipv4SocketAddr>)
    ensures
        res == spec_parse_socket_addr(s@),
{
    let chars = chars_of(s);
    let ghost t = s@;
    let len = chars.len();
    let e1 = scan_digits(&chars, 0);
    let ok1 = e1 < len && chars[e1] == '.';
    let e2 = if ok1 { scan_digits(&chars, e1 + 1) } else { e1 };
    let ok2 = ok1 && e2 < len && chars[e2] == '.';
    let e3 = if ok2 { scan_digits(&chars, e2 + 1) } else { e2 };
    let ok3 = ok2 && e3 < len && chars[e3] == '.';
    let e4 = if ok3 { scan_digits(&chars, e3 + 1) } else { e3 };
    let ok4 = ok3 && e4 < len && chars[e4] == ':';
    let e5 = if ok4 { scan_digits(&chars, e4 + 1) } else { e4 };
    let ok5 = ok4 && e5 == len;
    proof {
        // A text of the grammar passes every separator test, at the scanned ends.
        assert forall|i1: int, i2: int, i3: int, i4: int|
            #[trigger] socket_fields(t, i1, i2, i3, i4) implies ok5 && i1 == e1 && i2 == e2 && i3
                == e3 && i4 == e4 by {
            assert(digit_run(t, 0, i1));
            lemma_digit_run_unique(t, 0, i1, e1 as int);
            assert(digit_run(t, i1 + 1, i2));
            lemma_digit_run_unique(t, i1 + 1, i2, e2 as int);
            assert(digit_run(t, i2 + 1, i3));
            lemma_digit_run_unique(t, i2 + 1, i3, e3 as int);
            assert(digit_run(t, i3 + 1, i4));
            lemma_digit_run_unique(t, i3 + 1, i4, e4 as int);
            assert(digit_run(t, i4 + 1, len as int));
            lemma_digit_run_unique(t, i4 + 1, len as int, e5 as int);
        }
    }
    if !ok5 {
        return None;
    }
    let a = octet_value(&chars, 0, e1);
    let b = octet_value(&chars, e1 + 1, e2);
    let c = octet_value(&chars, e2 + 1, e3);
    let d = octet_value(&chars, e3 + 1, e4);
    let p = port_value(&chars, e4 + 1, len);
    match (a, b, c, d, p) {
        (Some(a), Some(b), Some(c), Some(d), Some(p)) => {
            let ip = a * 16777216 + b * 65536 + c * 256 + d;
            proof {
                assert(socket_fields(t, e1 as int, e2 as int, e3 as int, e4 as int));
            }
            Some(Ipv4SocketAddr { ip, port: p })
        },
        _ => None,
    }
}

} // verus!
