//! Choosing which network interface to advertise to devices, and the
//! address text shown to them. The surrounding application enumerates the
//! machine's interfaces and hands over what the choice turns on.

use vstd::prelude::*;
use vstd::string::StringExecFns;
use crate::ident::{digit_char, digit_val};
use crate::strutil::push_char;

verus! {

/// What the interface choice turns on: whether the interface is a loopback,
/// whether its address is a version-four address, and its netmask's bits
/// (most significant octet highest).
pub struct IfaceInfo {
    pub loopback: bool,
    pub v4: bool,
    pub netmask: u32,
}

/// Ranking key: the netmask for a version-four interface, the lowest rank
/// otherwise.
pub open spec fn iface_key(f: IfaceInfo) -> u32 {
    if f.v4 {
        f.netmask
    } else {
        0
    }
}

/// Pick the interface whose address devices are pointed at: among the
/// non-loopback interfaces, the last one with the most specific (largest)
/// netmask; nothing when every interface is a loopback.
pub fn choose_interface(ifs: &Vec<IfaceInfo>) -> (r: Option<usize>)
    ensures
        match r {
            Some(i) => {
                &&& i < ifs@.len()
                &&& !ifs@[i as int].loopback
                &&& forall|j: int|
                    0 <= j < ifs@.len() && !ifs@[j].loopback ==> iface_key(#[trigger] ifs@[j])
                        <= iface_key(ifs@[i as int])
                &&& forall|j: int|
                    i < j < ifs@.len() && !ifs@[j].loopback ==> iface_key(#[trigger] ifs@[j])
                        < iface_key(ifs@[i as int])
            },
            None => forall|j: int| 0 <= j < ifs@.len() ==> (#[trigger] ifs@[j]).loopback,
        },
{
    let mut best: Option<usize> = None;
    let mut i: usize = 0;
    while i < ifs.len()
        invariant
            i <= ifs@.len(),
            match best {
                Some(b) => {
                    &&& b < i
                    &&& !ifs@[b as int].loopback
                    &&& forall|j: int|
                        0 <= j < i && !ifs@[j].loopback ==> iface_key(#[trigger] ifs@[j])
                            <= iface_key(ifs@[b as int])
                    &&& forall|j: int|
                        b < j < i && !ifs@[j].loopback ==> iface_key(#[trigger] ifs@[j])
                            < iface_key(ifs@[b as int])
                },
                None => forall|j: int| 0 <= j < i ==> (#[trigger] ifs@[j]).loopback,
            },
        decreases ifs@.len() - i,
    {
        if !ifs[i].loopback {
            let key: u32 = if ifs[i].v4 {
                ifs[i].netmask
            } else {
                0
            };
            let take = match best {
                Some(b) => {
                    let bkey: u32 = if ifs[b].v4 {
                        ifs[b].netmask
                    } else {
                        0
                    };
                    key >= bkey
                },
                None => true,
            };
            if take {
                best = Some(i);
            }
        }
        i += 1;
    }
    best
}

/// Decimal text of a positive number, most significant digit first; empty
/// for zero.
pub open spec fn dec_chars(v: int) -> Seq<char>
    decreases v
        when v >= 0
{
    if v <= 0 {
        Seq::empty()
    } else {
        dec_chars(v / 10).push(digit_char(v % 10))
    }
}

/// Decimal text of a port number.
pub open spec fn port_chars(p: u16) -> Seq<char> {
    if p == 0 {
        seq!['0']
    } else {
        dec_chars(p as int)
    }
}

/// The address a device is pointed at: the scheme, the chosen interface's
/// address text, and the configured port.
pub fn format_server_address(ip_text: &str, port: u16) -> (r: String)
    ensures
        r@ == "https://"@ + ip_text@ + ":"@ + port_chars(port),
{
    let mut r = String::from_str("https://");
    r.append(ip_text);
    r.append(":");
    if port == 0 {
        push_char(&mut r, '0');
        proof {
            assert(r@ =~= "https://"@ + ip_text@ + ":"@ + port_chars(port));
        }
        return r;
    }
    let mut tmp: Vec<char> = Vec::new();
    let mut x: u16 = port;
    proof {
        assert(tmp@.reverse() =~= Seq::<char>::empty());
        assert(dec_chars(port as int) + tmp@.reverse() =~= dec_chars(port as int));
    }
    while x > 0
        invariant
            dec_chars(port as int) == dec_chars(x as int) + tmp@.reverse(),
        decreases x,
    {
        let d: u8 = (x % 10) as u8;
        let c = dec_digit_char(d);
        proof {
            let prev = tmp@;
            assert(dec_chars(x as int) == dec_chars(x as int / 10).push(
                digit_char(x as int % 10),
            ));
            assert(prev.push(c).reverse() =~= seq![c] + prev.reverse());
            assert(dec_chars(x as int / 10) + (seq![c] + prev.reverse()) =~= (dec_chars(
                x as int / 10,
            ).push(c)) + prev.reverse());
        }
        tmp.push(c);
        x = x / 10;
    }
    proof {
        assert(dec_chars(port as int) == tmp@.reverse());
    }
    let ghost base = r@;
    let mut k: usize = 0;
    while k < tmp.len()
        invariant
            k <= tmp@.len(),
            r@ == base + tmp@.reverse().subrange(0, k as int),
        decreases tmp@.len() - k,
    {
        proof {
            assert(tmp@.reverse()[k as int] == tmp@[tmp@.len() - 1 - k]);
        }
        push_char(&mut r, tmp[tmp.len() - 1 - k]);
        k += 1;
        proof {
            assert(r@ =~= base + tmp@.reverse().subrange(0, k as int));
        }
    }
    proof {
        assert(tmp@.reverse().subrange(0, tmp@.len() as int) =~= tmp@.reverse());
        assert(r@ =~= "https://"@ + ip_text@ + ":"@ + port_chars(port));
    }
    r
}

/// Character of one decimal digit value.
fn dec_digit_char(d: u8) -> (c: char)
    requires
        d <= 9,
    ensures
        c == digit_char(d as int),
{
    match d {
        0 => '0',
        1 => '1',
        2 => '2',
        3 => '3',
        4 => '4',
        5 => '5',
        6 => '6',
        7 => '7',
        8 => '8',
        _ => '9',
    }
}

} // verus!
