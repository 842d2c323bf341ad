//! IRC-level data: session configuration, the transfer request, and the
//! DCC-SEND offer grammar with its two address encodings.
use vstd::prelude::*;

use crate::text::contains_substr;
use crate::text::find_substr;

verus! {

// ---------------------------------------------------------------------------
// Session data
// ---------------------------------------------------------------------------
/// Connection parameters for one IRC session.
#[derive(Debug, Clone)]
pub struct Config {
    pub server: String,
    pub channel: String,
    pub nickname: String,
}

/// Everything one download session needs: where to log in, whom to ask,
/// which packages, and where the files go.  The package-list length
/// fixes how many offers the session must observe before terminating.
pub struct Request {
    pub config: Config,
    pub bot: String,
    pub packages: Vec<String>,
    pub directory: String,
}

/// A parsed DCC-SEND offer: the peer and the file it will stream.
pub struct DCCSend {
    pub filename: String,
    pub ip: IpAddress,
    pub port: u16,
    pub file_size: usize,
}

/// The mathematical view of an offer.
pub struct OfferView {
    pub filename: Seq<char>,
    pub ip: IpAddress,
    pub port: u16,
    pub size: usize,
}

impl View for DCCSend {
    type V = OfferView;

    open spec fn view(&self) -> OfferView {
        OfferView {
            filename: self.filename@,
            ip: self.ip,
            port: self.port,
            size: self.file_size,
        }
    }
}

// ---------------------------------------------------------------------------
// Addresses
// ---------------------------------------------------------------------------
/// A peer address from an offer line: four IPv4 octets, or eight IPv6
/// groups.
#[derive(Debug, Clone, Copy, PartialEq, Eq)]
pub enum IpAddress {
    V4(u8, u8, u8, u8),
    V6(u16, u16, u16, u16, u16, u16, u16, u16),
}

/// The big-endian byte decomposition of a 32-bit address integer.
pub open spec fn v4_of(n: u32) -> IpAddress {
    IpAddress::V4(
        (n >> 24) as u8,
        ((n >> 16) & 0xff) as u8,
        ((n >> 8) & 0xff) as u8,
        (n & 0xff) as u8,
    )
}

/// Eight groups, taken from a sequence of exactly eight values.
pub open spec fn v6_of(g: Seq<u16>) -> IpAddress {
    IpAddress::V6(g[0], g[1], g[2], g[3], g[4], g[5], g[6], g[7])
}

/// Each part is one to four hexadecimal digits.
pub open spec fn parts_ok(parts: Seq<Seq<char>>) -> bool {
    forall|i: int|
        0 <= i < parts.len() ==> 1 <= (#[trigger] parts[i]).len() <= 4
            && crate::digits::hex_seq_valid(parts[i])
}

/// The group values of the parts.
pub open spec fn parts_vals(parts: Seq<Seq<char>>) -> Seq<u16> {
    Seq::new(parts.len(), |i: int| crate::digits::hex_seq_val(parts[i]) as u16)
}

/// An IPv6 literal: eight colon-separated hexadecimal groups, or two
/// runs of groups around one `::` standing for the missing zero groups.
pub open spec fn parse_v6(s: Seq<char>) -> Option<Seq<u16>> {
    let dd = seq![':', ':'];
    if crate::text::contains_sub(s, dd) {
        let i = crate::text::find_sub(s, dd);
        let left = s.take(i);
        let right = s.skip(i + 2);
        if crate::text::contains_sub(right, dd) {
            None
        } else {
            let lp = if left.len() == 0 {
                Seq::<Seq<char>>::empty()
            } else {
                crate::text::split_on(left, ':')
            };
            let rp = if right.len() == 0 {
                Seq::<Seq<char>>::empty()
            } else {
                crate::text::split_on(right, ':')
            };
            if parts_ok(lp) && parts_ok(rp) && lp.len() + rp.len() <= 7 {
                Some(
                    parts_vals(lp) + Seq::new((8 - lp.len() - rp.len()) as nat, |k: int| 0u16)
                        + parts_vals(rp),
                )
            } else {
                None
            }
        }
    } else {
        let p = crate::text::split_on(s, ':');
        if p.len() == 8 && parts_ok(p) {
            Some(parts_vals(p))
        } else {
            None
        }
    }
}

/// The address field of an offer: a pure decimal integer is a 32-bit
/// IPv4 address in big-endian byte order; otherwise the field must be an
/// IPv6 literal.  There is no fallback.
pub open spec fn parse_address(s: Seq<char>) -> Option<IpAddress> {
    if crate::digits::dec_seq_valid(s) {
        if crate::digits::dec_seq_val(s) <= u32::MAX {
            Some(v4_of(crate::digits::dec_seq_val(s) as u32))
        } else {
            None
        }
    } else {
        match parse_v6(s) {
            Some(g) => Some(v6_of(g)),
            None => None,
        }
    }
}

/// The textual form this crate renders an address back to: dotted
/// decimal for IPv4, eight full lowercase hexadecimal groups for IPv6.
pub open spec fn ip_text(ip: IpAddress) -> Seq<char> {
    match ip {
        IpAddress::V4(a, b, c, d) => crate::digits::dec_chars(a as nat) + seq!['.']
            + crate::digits::dec_chars(b as nat) + seq!['.'] + crate::digits::dec_chars(c as nat)
            + seq!['.'] + crate::digits::dec_chars(d as nat),
        IpAddress::V6(g0, g1, g2, g3, g4, g5, g6, g7) => crate::digits::hex_chars(g0 as nat)
            + seq![':'] + crate::digits::hex_chars(g1 as nat) + seq![':']
            + crate::digits::hex_chars(g2 as nat) + seq![':'] + crate::digits::hex_chars(g3 as nat)
            + seq![':'] + crate::digits::hex_chars(g4 as nat) + seq![':']
            + crate::digits::hex_chars(g5 as nat) + seq![':'] + crate::digits::hex_chars(g6 as nat)
            + seq![':'] + crate::digits::hex_chars(g7 as nat),
    }
}

impl IpAddress {
    /// Render the address as text, for the data-connection dial string.
    pub fn to_text(&self) -> (r: String)
        ensures
            r@ == ip_text(*self),
    {
        let mut s = String::new();
        match *self {
            IpAddress::V4(a, b, c, d) => {
                crate::digits::push_dec_u64(&mut s, a as u64);
                crate::text::push_char(&mut s, '.');
                crate::digits::push_dec_u64(&mut s, b as u64);
                crate::text::push_char(&mut s, '.');
                crate::digits::push_dec_u64(&mut s, c as u64);
                crate::text::push_char(&mut s, '.');
                crate::digits::push_dec_u64(&mut s, d as u64);
                proof {
                    assert(s@ =~= ip_text(*self));
                }
            },
            IpAddress::V6(g0, g1, g2, g3, g4, g5, g6, g7) => {
                crate::digits::push_hex_u16(&mut s, g0);
                crate::text::push_char(&mut s, ':');
                crate::digits::push_hex_u16(&mut s, g1);
                crate::text::push_char(&mut s, ':');
                crate::digits::push_hex_u16(&mut s, g2);
                crate::text::push_char(&mut s, ':');
                crate::digits::push_hex_u16(&mut s, g3);
                crate::text::push_char(&mut s, ':');
                crate::digits::push_hex_u16(&mut s, g4);
                crate::text::push_char(&mut s, ':');
                crate::digits::push_hex_u16(&mut s, g5);
                crate::text::push_char(&mut s, ':');
                crate::digits::push_hex_u16(&mut s, g6);
                crate::text::push_char(&mut s, ':');
                crate::digits::push_hex_u16(&mut s, g7);
                proof {
                    assert(s@ =~= ip_text(*self));
                }
            },
        }
        s
    }
}

/// Whether `s` is a non-empty run of decimal digits.
fn all_digits(s: &str) -> (r: bool)
    ensures
        r == crate::digits::dec_seq_valid(s@),
{
    let n = s.unicode_len();
    if n == 0 {
        return false;
    }
    let mut i: usize = 0;
    while i < n
        invariant
            i <= n,
            n == s@.len(),
            forall|k: int| 0 <= k < i ==> crate::digits::is_dec_digit(s@[k]),
        decreases n - i,
    {
        let u = s.get_char(i) as u32;
        if !(48 <= u && u <= 57) {
            return false;
        }
        i += 1;
    }
    true
}

/// Value of one hexadecimal group of an IPv6 literal.
fn parse_hex_group(g: &str) -> (r: Option<u16>)
    ensures
        match r {
            Some(v) => 1 <= g@.len() <= 4 && crate::digits::hex_seq_valid(g@) && v as nat
                == crate::digits::hex_seq_val(g@),
            None => !(1 <= g@.len() <= 4 && crate::digits::hex_seq_valid(g@)),
        },
{
    let n = g.unicode_len();
    if n == 0 || n > 4 {
        return None;
    }
    let mut acc: u32 = 0;
    let mut i: usize = 0;
    while i < n
        invariant
            i <= n <= 4,
            n == g@.len(),
            forall|k: int| 0 <= k < i ==> crate::digits::is_hex_digit(g@[k]),
            acc as nat == crate::digits::hex_seq_val(g@.take(i as int)),
            acc < 0x10000,
        decreases n - i,
    {
        let u = g.get_char(i) as u32;
        let d: u32;
        if 48 <= u && u <= 57 {
            d = u - 48;
        } else if 97 <= u && u <= 102 {
            d = u - 87;
        } else if 65 <= u && u <= 70 {
            d = u - 55;
        } else {
            return None;
        }
        proof {
            assert(g@.take(i + 1).drop_last() =~= g@.take(i as int));
            assert(g@.take(i + 1).last() == g@[i as int]);
            crate::digits::lemma_hex_val_bound(g@.take(i as int));
        }
        acc = acc * 16 + d;
        i += 1;
    }
    proof {
        assert(g@.take(n as int) =~= g@);
    }
    Some(acc as u16)
}

/// Values of all the groups of a colon-split literal.
fn parts_to_vals(parts: &Vec<String>) -> (r: Option<Vec<u16>>)
    ensures
        match r {
            Some(v) => parts_ok(parts.deep_view()) && v@ == parts_vals(parts.deep_view()),
            None => !parts_ok(parts.deep_view()),
        },
{
    let mut out: Vec<u16> = Vec::new();
    let mut i: usize = 0;
    while i < parts.len()
        invariant
            i <= parts@.len(),
            out@.len() == i,
            forall|k: int|
                0 <= k < i ==> 1 <= (#[trigger] parts.deep_view()[k]).len() <= 4
                    && crate::digits::hex_seq_valid(parts.deep_view()[k]),
            forall|k: int|
                0 <= k < i ==> out@[k] as nat == crate::digits::hex_seq_val(
                    parts.deep_view()[k],
                ),
        decreases parts@.len() - i,
    {
        match parse_hex_group(parts[i].as_str()) {
            Some(v) => {
                out.push(v);
                proof {
                    assert(parts.deep_view()[i as int] == parts@[i as int]@);
                }
            },
            None => {
                proof {
                    assert(parts.deep_view()[i as int] == parts@[i as int]@);
                }
                return None;
            },
        }
        i += 1;
    }
    proof {
        assert(out@ =~= parts_vals(parts.deep_view()));
    }
    Some(out)
}

/// Parse an IPv6 literal.
fn parse_ipv6_text(s: &str) -> (r: Option<IpAddress>)
    ensures
        match parse_v6(s@) {
            Some(g) => r == Some(v6_of(g)),
            None => r == None::<IpAddress>,
        },
{
    let n = s.unicode_len();
    proof {
        reveal_strlit("::");
        assert("::"@ =~= seq![':', ':']);
    }
    match find_substr(s, "::") {
        Some(i) => {
            proof {
                crate::text::lemma_find_sub(s@, "::"@);
                assert(crate::text::sub_at(s@, seq![':', ':'], i as int));
            }
            let right_s = s.substring_char(i + 2, n);
            proof {
                assert(right_s@ =~= s@.skip(i + 2));
            }
            if contains_substr(right_s, "::") {
                return None;
            }
            let left_s = s.substring_char(0, i);
            proof {
                assert(left_s@ =~= s@.take(i as int));
            }
            let lp: Vec<String> = if i == 0 {
                Vec::new()
            } else {
                crate::text::split_on_char(left_s, ':')
            };
            let rp: Vec<String> = if right_s.unicode_len() == 0 {
                Vec::new()
            } else {
                crate::text::split_on_char(right_s, ':')
            };
            proof {
                if i == 0 {
                    assert(lp.deep_view() =~= Seq::<Seq<char>>::empty());
                }
                if right_s@.len() == 0 {
                    assert(rp.deep_view() =~= Seq::<Seq<char>>::empty());
                }
            }
            let lv = match parts_to_vals(&lp) {
                Some(v) => v,
                None => {
                    return None;
                },
            };
            let rv = match parts_to_vals(&rp) {
                Some(v) => v,
                None => {
                    return None;
                },
            };
            if lv.len() > 7 {
                return None;
            }
            if rv.len() > 7 - lv.len() {
                return None;
            }
            let mut groups = lv;
            let zcount = 8 - groups.len() - rv.len();
            let ghost base = groups@;
            let mut z: usize = 0;
            while z < zcount
                invariant
                    z <= zcount,
                    groups@ =~= base + Seq::new(z as nat, |k: int| 0u16),
                decreases zcount - z,
            {
                groups.push(0u16);
                proof {
                    assert(base + Seq::new((z + 1) as nat, |k: int| 0u16) =~= (base + Seq::new(
                        z as nat,
                        |k: int| 0u16,
                    )).push(0u16));
                }
                z += 1;
            }
            let mut tail = rv;
            groups.append(&mut tail);
            proof {
                let lps = lp.deep_view();
                let rps = rp.deep_view();
                let expected = parts_vals(lps) + Seq::new(
                    (8 - lps.len() - rps.len()) as nat,
                    |k: int| 0u16,
                ) + parts_vals(rps);
                assert(groups@ =~= expected);
                assert(parse_v6(s@) == Some(expected));
                assert(groups@.len() == 8);
            }
            let ip = IpAddress::V6(
                groups[0],
                groups[1],
                groups[2],
                groups[3],
                groups[4],
                groups[5],
                groups[6],
                groups[7],
            );
            Some(ip)
        },
        None => {
            proof {
                crate::text::lemma_find_sub(s@, "::"@);
                if crate::text::contains_sub(s@, seq![':', ':']) {
                    assert(crate::text::contains_sub(s@, "::"@));
                }
            }
            let parts = crate::text::split_on_char(s, ':');
            if parts.len() != 8 {
                return None;
            }
            match parts_to_vals(&parts) {
                Some(v) => {
                    proof {
                        assert(parse_v6(s@) == Some(parts_vals(parts.deep_view())));
                        assert(v@.len() == 8);
                    }
                    let ip = IpAddress::V6(v[0], v[1], v[2], v[3], v[4], v[5], v[6], v[7]);
                    Some(ip)
                },
                None => None,
            }
        },
    }
}

/// Parse the address field of an offer line.
pub fn parse_address_text(s: &str) -> (r: Option<IpAddress>)
    ensures
        r == parse_address(s@),
{
    if all_digits(s) {
        match crate::digits::parse_u32(s) {
            Some(v) => Some(
                IpAddress::V4(
                    (v >> 24) as u8,
                    ((v >> 16) & 0xff) as u8,
                    ((v >> 8) & 0xff) as u8,
                    (v & 0xff) as u8,
                ),
            ),
            None => None,
        }
    } else {
        parse_ipv6_text(s)
    }
}

// ---------------------------------------------------------------------------
// Address laws
// ---------------------------------------------------------------------------
/// An IPv4 address sent as a decimal integer parses to the big-endian
/// byte decomposition of that integer.
pub proof fn lemma_v4_decimal_parse(n: u32)
    ensures
        parse_address(crate::digits::dec_chars(n as nat)) == Some(v4_of(n)),
{
    crate::digits::lemma_dec_chars_val(n as nat);
}

/// A parsed IPv6 address renders back to a text form that parses to the
/// same eight groups.
/// The hexadecimal parts of the full-form rendering of eight groups.
pub open spec fn v6_parts(
    g0: u16,
    g1: u16,
    g2: u16,
    g3: u16,
    g4: u16,
    g5: u16,
    g6: u16,
    g7: u16,
) -> Seq<Seq<char>> {
    seq![
        crate::digits::hex_chars(g0 as nat),
        crate::digits::hex_chars(g1 as nat),
        crate::digits::hex_chars(g2 as nat),
        crate::digits::hex_chars(g3 as nat),
        crate::digits::hex_chars(g4 as nat),
        crate::digits::hex_chars(g5 as nat),
        crate::digits::hex_chars(g6 as nat),
        crate::digits::hex_chars(g7 as nat),
    ]
}

/// The full-form rendering is the parts joined with colons.
proof fn lemma_v6_text_is_join(
    g0: u16,
    g1: u16,
    g2: u16,
    g3: u16,
    g4: u16,
    g5: u16,
    g6: u16,
    g7: u16,
)
    ensures
        ip_text(IpAddress::V6(g0, g1, g2, g3, g4, g5, g6, g7)) == crate::text::join_with(
            v6_parts(g0, g1, g2, g3, g4, g5, g6, g7),
            ':',
        ),
{
    let parts = v6_parts(g0, g1, g2, g3, g4, g5, g6, g7);
    crate::text::lemma_join8(parts, ':');
    assert(parts[0] == crate::digits::hex_chars(g0 as nat));
    assert(parts[1] == crate::digits::hex_chars(g1 as nat));
    assert(parts[2] == crate::digits::hex_chars(g2 as nat));
    assert(parts[3] == crate::digits::hex_chars(g3 as nat));
    assert(parts[4] == crate::digits::hex_chars(g4 as nat));
    assert(parts[5] == crate::digits::hex_chars(g5 as nat));
    assert(parts[6] == crate::digits::hex_chars(g6 as nat));
    assert(parts[7] == crate::digits::hex_chars(g7 as nat));
}

/// One rendered group is one to four hexadecimal, colon-free digits
/// carrying the group's value.
proof fn lemma_one_group(g: u16)
    ensures
        1 <= crate::digits::hex_chars(g as nat).len() <= 4,
        crate::digits::hex_seq_valid(crate::digits::hex_chars(g as nat)),
        crate::digits::hex_seq_val(crate::digits::hex_chars(g as nat)) == g,
        forall|j: int|
            0 <= j < crate::digits::hex_chars(g as nat).len() ==> #[trigger] crate::digits::hex_chars(
                g as nat,
            )[j] != ':',
{
    crate::digits::lemma_hex_chars_val(g as nat);
    crate::digits::lemma_hex_chars_len_u16(g as nat);
    let h = crate::digits::hex_chars(g as nat);
    assert forall|j: int| 0 <= j < h.len() implies #[trigger] h[j] != ':' by {
        assert(crate::digits::is_hex_digit(h[j]));
    }
}

/// The parts of a rendering are well-formed hexadecimal groups.
#[verifier::rlimit(60)]
proof fn lemma_v6_parts_ok(
    g0: u16,
    g1: u16,
    g2: u16,
    g3: u16,
    g4: u16,
    g5: u16,
    g6: u16,
    g7: u16,
)
    ensures
        parts_ok(v6_parts(g0, g1, g2, g3, g4, g5, g6, g7)),
        forall|i: int|
            0 <= i < 8 ==> (#[trigger] v6_parts(g0, g1, g2, g3, g4, g5, g6, g7)[i]).len() > 0,
{
    let parts = v6_parts(g0, g1, g2, g3, g4, g5, g6, g7);
    lemma_one_group(g0);
    lemma_one_group(g1);
    lemma_one_group(g2);
    lemma_one_group(g3);
    lemma_one_group(g4);
    lemma_one_group(g5);
    lemma_one_group(g6);
    lemma_one_group(g7);
    assert forall|i: int| 0 <= i < parts.len() implies 1 <= (#[trigger] parts[i]).len() <= 4
        && crate::digits::hex_seq_valid(parts[i]) by {
        if i == 0 {
            assert(parts[0] == crate::digits::hex_chars(g0 as nat));
        } else if i == 1 {
            assert(parts[1] == crate::digits::hex_chars(g1 as nat));
        } else if i == 2 {
            assert(parts[2] == crate::digits::hex_chars(g2 as nat));
        } else if i == 3 {
            assert(parts[3] == crate::digits::hex_chars(g3 as nat));
        } else if i == 4 {
            assert(parts[4] == crate::digits::hex_chars(g4 as nat));
        } else if i == 5 {
            assert(parts[5] == crate::digits::hex_chars(g5 as nat));
        } else if i == 6 {
            assert(parts[6] == crate::digits::hex_chars(g6 as nat));
        } else {
            assert(parts[7] == crate::digits::hex_chars(g7 as nat));
        }
    }
}

/// No rendered group contains a colon.
#[verifier::rlimit(60)]
proof fn lemma_v6_parts_colon_free(
    g0: u16,
    g1: u16,
    g2: u16,
    g3: u16,
    g4: u16,
    g5: u16,
    g6: u16,
    g7: u16,
)
    ensures
        forall|i: int, j: int|
            0 <= i < 8 && 0 <= j < v6_parts(g0, g1, g2, g3, g4, g5, g6, g7)[i].len()
                ==> #[trigger] v6_parts(g0, g1, g2, g3, g4, g5, g6, g7)[i][j] != ':',
{
    let parts = v6_parts(g0, g1, g2, g3, g4, g5, g6, g7);
    lemma_one_group(g0);
    lemma_one_group(g1);
    lemma_one_group(g2);
    lemma_one_group(g3);
    lemma_one_group(g4);
    lemma_one_group(g5);
    lemma_one_group(g6);
    lemma_one_group(g7);
    assert forall|i: int, j: int|
        0 <= i < 8 && 0 <= j < parts[i].len() implies #[trigger] parts[i][j] != ':' by {
        if i == 0 {
            assert(parts[0] == crate::digits::hex_chars(g0 as nat));
        } else if i == 1 {
            assert(parts[1] == crate::digits::hex_chars(g1 as nat));
        } else if i == 2 {
            assert(parts[2] == crate::digits::hex_chars(g2 as nat));
        } else if i == 3 {
            assert(parts[3] == crate::digits::hex_chars(g3 as nat));
        } else if i == 4 {
            assert(parts[4] == crate::digits::hex_chars(g4 as nat));
        } else if i == 5 {
            assert(parts[5] == crate::digits::hex_chars(g5 as nat));
        } else if i == 6 {
            assert(parts[6] == crate::digits::hex_chars(g6 as nat));
        } else {
            assert(parts[7] == crate::digits::hex_chars(g7 as nat));
        }
    }
}

/// The rendered groups carry the original values.
#[verifier::rlimit(60)]
proof fn lemma_v6_parts_vals(
    g0: u16,
    g1: u16,
    g2: u16,
    g3: u16,
    g4: u16,
    g5: u16,
    g6: u16,
    g7: u16,
)
    ensures
        parts_vals(v6_parts(g0, g1, g2, g3, g4, g5, g6, g7)) == seq![g0, g1, g2, g3, g4, g5, g6, g7],
{
    let parts = v6_parts(g0, g1, g2, g3, g4, g5, g6, g7);
    lemma_one_group(g0);
    lemma_one_group(g1);
    lemma_one_group(g2);
    lemma_one_group(g3);
    lemma_one_group(g4);
    lemma_one_group(g5);
    lemma_one_group(g6);
    lemma_one_group(g7);
    assert(parts_vals(parts) =~= seq![g0, g1, g2, g3, g4, g5, g6, g7]);
}

// ---------------------------------------------------------------------------
// Offer grammar
// ---------------------------------------------------------------------------
/// The literal that announces an offer inside a chat line.
pub open spec fn dcc_prefix() -> Seq<char> {
    "DCC SEND "@
}

/// The line carries a DCC-SEND offer.
pub open spec fn has_offer(line: Seq<char>) -> bool {
    crate::text::contains_sub(line, dcc_prefix())
}

/// Filename field: optionally double-quoted (quotes stripped, spaces
/// allowed inside), otherwise the run up to the next space.  Returns the
/// name and the text after the following separator.
pub open spec fn name_split(rest: Seq<char>) -> Option<(Seq<char>, Seq<char>)> {
    if rest.len() > 0 && rest[0] == '"' {
        let q = crate::text::find_ch(rest.skip(1), '"');
        if q >= 0 {
            let name = rest.skip(1).take(q);
            let after = rest.skip(1).skip(q + 1);
            if after.len() > 0 && after[0] == ' ' {
                Some((name, after.skip(1)))
            } else {
                None
            }
        } else {
            None
        }
    } else {
        let sp = crate::text::find_ch(rest, ' ');
        if sp >= 1 {
            Some((rest.take(sp), rest.skip(sp + 1)))
        } else {
            None
        }
    }
}

/// A non-empty field up to the next space, and the text after it.
pub open spec fn field_split(s: Seq<char>) -> Option<(Seq<char>, Seq<char>)> {
    let sp = crate::text::find_ch(s, ' ');
    if sp >= 1 {
        Some((s.take(sp), s.skip(sp + 1)))
    } else {
        None
    }
}

/// Length of the maximal decimal-digit prefix of `s`.
pub open spec fn digit_run(s: Seq<char>) -> nat
    decreases s.len(),
{
    if s.len() == 0 || !crate::digits::is_dec_digit(s[0]) {
        0
    } else {
        1 + digit_run(s.subrange(1, s.len() as int))
    }
}

/// The DCC-SEND grammar: the literal prefix, then filename, address,
/// port and declared size, separated by single spaces.  Anything after
/// the size digits is ignored.  Any failure makes the offer
/// unrecoverable; there is no default address.
pub open spec fn parse_offer(line: Seq<char>) -> Option<OfferView> {
    if !has_offer(line) {
        None
    } else {
        let rest = line.skip(
            crate::text::find_sub(line, dcc_prefix()) + dcc_prefix().len() as int,
        );
        match name_split(rest) {
            None => None,
            Some((name, t1)) => match field_split(t1) {
                None => None,
                Some((addr_txt, t2)) => match parse_address(addr_txt) {
                    None => None,
                    Some(ip) => match field_split(t2) {
                        None => None,
                        Some((port_txt, t3)) => if crate::digits::dec_seq_valid(port_txt)
                            && crate::digits::dec_seq_val(port_txt) <= u16::MAX {
                            let k = digit_run(t3);
                            if k >= 1 && crate::digits::dec_seq_val(t3.take(k as int))
                                <= usize::MAX {
                                Some(
                                    OfferView {
                                        filename: name,
                                        ip: ip,
                                        port: crate::digits::dec_seq_val(port_txt) as u16,
                                        size: crate::digits::dec_seq_val(
                                            t3.take(k as int),
                                        ) as usize,
                                    },
                                )
                            } else {
                                None
                            }
                        } else {
                            None
                        },
                    },
                },
            },
        }
    }
}

/// Split a non-empty space-terminated field off the front of `s`.
fn field_split_text<'a>(s: &'a str) -> (r: Option<(String, &'a str)>)
    ensures
        match r {
            Some(p) => field_split(s@) == Some((p.0@, p.1@)),
            None => field_split(s@) is None,
        },
{
    let n = s.unicode_len();
    match crate::text::find_char(s, ' ') {
        Some(sp) => {
            if sp == 0 {
                return None;
            }
            proof {
                crate::text::lemma_find_ch(s@, ' ');
            }
            let head = s.substring_char(0, sp).to_owned();
            let tail = s.substring_char(sp + 1, n);
            proof {
                assert(head@ =~= s@.take(sp as int));
                assert(tail@ =~= s@.skip(sp + 1));
            }
            Some((head, tail))
        },
        None => None,
    }
}

/// Character count of the maximal decimal-digit prefix of `s`.
fn digit_run_end(s: &str) -> (k: usize)
    ensures
        k <= s@.len(),
        k as nat == digit_run(s@),
{
    let n = s.unicode_len();
    let mut k: usize = 0;
    while k < n
        invariant
            k <= n,
            n == s@.len(),
            forall|j: int| 0 <= j < k ==> crate::digits::is_dec_digit(s@[j]),
        decreases n - k,
    {
        let u = s.get_char(k) as u32;
        if !(48 <= u && u <= 57) {
            proof {
                lemma_digit_run_is(s@, k as int);
            }
            return k;
        }
        k += 1;
    }
    proof {
        lemma_digit_run_is(s@, k as int);
    }
    k
}

/// The digit prefix really is made of digits.
proof fn lemma_digit_run_digits(s: Seq<char>)
    ensures
        digit_run(s) <= s.len(),
        forall|i: int| 0 <= i < digit_run(s) ==> crate::digits::is_dec_digit(s[i]),
    decreases s.len(),
{
    if s.len() > 0 && crate::digits::is_dec_digit(s[0]) {
        let t = s.subrange(1, s.len() as int);
        lemma_digit_run_digits(t);
        assert forall|i: int| 0 <= i < digit_run(s) implies crate::digits::is_dec_digit(s[i]) by {
            if i > 0 {
                assert(t[i - 1] == s[i]);
            }
        }
    }
}

/// `digit_run` is the unique boundary of the digit prefix.
proof fn lemma_digit_run_is(s: Seq<char>, k: int)
    requires
        0 <= k <= s.len(),
        forall|i: int| 0 <= i < k ==> crate::digits::is_dec_digit(s[i]),
        k == s.len() || !crate::digits::is_dec_digit(s[k]),
    ensures
        digit_run(s) == k,
    decreases s.len(),
{
    if k > 0 {
        let t = s.subrange(1, s.len() as int);
        assert forall|i: int| 0 <= i < k - 1 implies crate::digits::is_dec_digit(t[i]) by {
            assert(t[i] == s[i + 1]);
        }
        lemma_digit_run_is(t, k - 1);
    }
}

/// Parse one chat line as a DCC-SEND offer.
pub fn parse_dcc_send(line: &str) -> (r: Option<DCCSend>)
    ensures
        match r {
            Some(d) => parse_offer(line@) == Some(d@),
            None => parse_offer(line@) is None,
        },
{
    proof {
        reveal_strlit("DCC SEND ");
    }
    let pre = match crate::text::find_substr(line, "DCC SEND ") {
        Some(i) => i,
        None => {
            proof {
                crate::text::lemma_find_sub(line@, "DCC SEND "@);
            }
            return None;
        },
    };
    proof {
        crate::text::lemma_find_sub(line@, "DCC SEND "@);
        assert(crate::text::sub_at(line@, "DCC SEND "@, pre as int));
    }
    let n = line.unicode_len();
    let rest = line.substring_char(pre + 9, n);
    proof {
        assert(rest@ =~= line@.skip(pre + 9));
    }
    let rn = rest.unicode_len();
    let name: String;
    let t1: &str;
    if rn > 0 && rest.get_char(0) == '"' {
        let r1 = rest.substring_char(1, rn);
        proof {
            assert(r1@ =~= rest@.skip(1));
        }
        let q = match crate::text::find_char(r1, '"') {
            Some(q) => q,
            None => {
                return None;
            },
        };
        proof {
            crate::text::lemma_find_ch(r1@, '"');
        }
        name = r1.substring_char(0, q).to_owned();
        let after = r1.substring_char(q + 1, r1.unicode_len());
        proof {
            assert(name@ =~= rest@.skip(1).take(q as int));
            assert(after@ =~= rest@.skip(1).skip(q + 1));
        }
        if after.unicode_len() == 0 {
            return None;
        }
        if after.get_char(0) != ' ' {
            return None;
        }
        t1 = after.substring_char(1, after.unicode_len());
        proof {
            assert(t1@ =~= rest@.skip(1).skip(q + 1).skip(1));
        }
    } else {
        let sp = match crate::text::find_char(rest, ' ') {
            Some(sp) => sp,
            None => {
                return None;
            },
        };
        if sp == 0 {
            return None;
        }
        proof {
            crate::text::lemma_find_ch(rest@, ' ');
        }
        name = rest.substring_char(0, sp).to_owned();
        t1 = rest.substring_char(sp + 1, rn);
        proof {
            assert(name@ =~= rest@.take(sp as int));
            assert(t1@ =~= rest@.skip(sp + 1));
        }
    }
    let (addr_s, t2) = match field_split_text(t1) {
        Some(p) => p,
        None => {
            return None;
        },
    };
    let ip = match parse_address_text(addr_s.as_str()) {
        Some(ip) => ip,
        None => {
            return None;
        },
    };
    let (port_s, t3) = match field_split_text(t2) {
        Some(p) => p,
        None => {
            return None;
        },
    };
    let port = match crate::digits::parse_u16(port_s.as_str()) {
        Some(p) => p,
        None => {
            return None;
        },
    };
    let k = digit_run_end(t3);
    if k == 0 {
        return None;
    }
    let size_s = t3.substring_char(0, k);
    proof {
        assert(size_s@ =~= t3@.take(k as int));
        lemma_digit_run_digits(t3@);
        assert forall|i: int| 0 <= i < size_s@.len() implies crate::digits::is_dec_digit(
            size_s@[i],
        ) by {
            assert(size_s@[i] == t3@[i]);
        }
        assert(crate::digits::dec_seq_valid(size_s@));
    }
    let size = match crate::digits::parse_usize(size_s) {
        Some(v) => v,
        None => {
            return None;
        },
    };
    Some(DCCSend { filename: name, ip, port, file_size: size })
}

/// A well-formed offer line parses to exactly its components: for any
/// unquoted space-free filename, address field, port and size, the
/// grammar recovers each field.
#[verifier::rlimit(60)]
pub proof fn lemma_offer_line_parse(
    name: Seq<char>,
    addr: Seq<char>,
    ip: IpAddress,
    port: Seq<char>,
    size: Seq<char>,
)
    requires
        name.len() > 0,
        name[0] != '"',
        forall|j: int| 0 <= j < name.len() ==> name[j] != ' ',
        addr.len() > 0,
        forall|j: int| 0 <= j < addr.len() ==> addr[j] != ' ',
        parse_address(addr) == Some(ip),
        crate::digits::dec_seq_valid(port),
        crate::digits::dec_seq_val(port) <= u16::MAX,
        crate::digits::dec_seq_valid(size),
        crate::digits::dec_seq_val(size) <= usize::MAX,
    ensures
        parse_offer(dcc_prefix() + name + seq![' '] + addr + seq![' '] + port + seq![' '] + size)
            == Some(
            OfferView {
                filename: name,
                ip: ip,
                port: crate::digits::dec_seq_val(port) as u16,
                size: crate::digits::dec_seq_val(size) as usize,
            },
        ),
{
    reveal_strlit("DCC SEND ");
    let p = dcc_prefix();
    let plen = p.len() as int;
    let line = p + name + seq![' '] + addr + seq![' '] + port + seq![' '] + size;
    assert(line.subrange(0, plen) =~= p);
    assert(crate::text::sub_at(line, p, 0));
    assert(crate::text::find_sub(line, p) == 0);
    assert(has_offer(line));
    let rest = line.skip(plen);
    assert(rest =~= name + seq![' '] + addr + seq![' '] + port + seq![' '] + size);
    assert(rest[0] == name[0]);
    assert forall|j: int| 0 <= j < name.len() implies rest[j] != ' ' by {
        assert(rest[j] == name[j]);
    }
    assert(rest[name.len() as int] == ' ');
    crate::text::lemma_find_ch_is(rest, ' ', name.len() as int);
    assert(rest.take(name.len() as int) =~= name);
    let t1 = rest.skip(name.len() as int + 1);
    assert(t1 =~= addr + seq![' '] + port + seq![' '] + size);
    assert forall|j: int| 0 <= j < addr.len() implies t1[j] != ' ' by {
        assert(t1[j] == addr[j]);
    }
    assert(t1[addr.len() as int] == ' ');
    crate::text::lemma_find_ch_is(t1, ' ', addr.len() as int);
    assert(t1.take(addr.len() as int) =~= addr);
    let t2 = t1.skip(addr.len() as int + 1);
    assert(t2 =~= port + seq![' '] + size);
    assert forall|j: int| 0 <= j < port.len() implies t2[j] != ' ' by {
        assert(t2[j] == port[j]);
        assert(crate::digits::is_dec_digit(port[j]));
    }
    assert(t2[port.len() as int] == ' ');
    crate::text::lemma_find_ch_is(t2, ' ', port.len() as int);
    assert(t2.take(port.len() as int) =~= port);
    let t3 = t2.skip(port.len() as int + 1);
    assert(t3 =~= size);
    assert forall|j: int| 0 <= j < t3.len() implies crate::digits::is_dec_digit(t3[j]) by {
        assert(t3[j] == size[j]);
    }
    lemma_digit_run_is(t3, t3.len() as int);
    assert(t3.take(t3.len() as int) =~= size);
}

/// For any offer line carrying an IPv4 address as a decimal integer,
/// the parsed address is the big-endian byte decomposition of that
/// integer.
pub proof fn lemma_v4_offer_line(name: Seq<char>, n: u32, port: Seq<char>, size: Seq<char>)
    requires
        name.len() > 0,
        name[0] != '"',
        forall|j: int| 0 <= j < name.len() ==> name[j] != ' ',
        crate::digits::dec_seq_valid(port),
        crate::digits::dec_seq_val(port) <= u16::MAX,
        crate::digits::dec_seq_valid(size),
        crate::digits::dec_seq_val(size) <= usize::MAX,
    ensures
        parse_offer(
            dcc_prefix() + name + seq![' '] + crate::digits::dec_chars(n as nat) + seq![' '] + port
                + seq![' '] + size,
        ) == Some(
            OfferView {
                filename: name,
                ip: v4_of(n),
                port: crate::digits::dec_seq_val(port) as u16,
                size: crate::digits::dec_seq_val(size) as usize,
            },
        ),
{
    let addr = crate::digits::dec_chars(n as nat);
    crate::digits::lemma_dec_chars_val(n as nat);
    lemma_v4_decimal_parse(n);
    assert forall|j: int| 0 <= j < addr.len() implies addr[j] != ' ' by {
        assert(crate::digits::is_dec_digit(addr[j]));
    }
    lemma_offer_line_parse(name, addr, v4_of(n), port, size);
}

// ---------------------------------------------------------------------------
// Line patterns and replies
// ---------------------------------------------------------------------------
/// The keepalive pattern.
pub open spec fn ping_pat() -> Seq<char> {
    "PING :"@
}

/// The line is a server keepalive.
pub open spec fn is_ping(line: Seq<char>) -> bool {
    crate::text::contains_sub(line, ping_pat())
}

/// The join-acknowledgment pattern.
pub open spec fn join_ack_pat() -> Seq<char> {
    "JOIN :#"@
}

/// The line acknowledges the channel join.
pub open spec fn is_join_ack(line: Seq<char>) -> bool {
    crate::text::contains_sub(line, join_ack_pat())
}

/// The keepalive reply: the same line with the first `PING` before the
/// payload replaced by `PONG`, terminator included.
pub open spec fn pong_of(line: Seq<char>) -> Seq<char> {
    let i = crate::text::find_sub(line, ping_pat());
    line.take(i) + "PONG"@ + line.skip(i + 4)
}

pub fn is_ping_line(line: &str) -> (r: bool)
    ensures
        r == is_ping(line@),
{
    crate::text::contains_substr(line, "PING :")
}

pub fn is_join_ack_line(line: &str) -> (r: bool)
    ensures
        r == is_join_ack(line@),
{
    crate::text::contains_substr(line, "JOIN :#")
}

/// Build the PONG reply for a keepalive line.
pub fn pong_for(line: &str) -> (r: String)
    requires
        is_ping(line@),
    ensures
        r@ == pong_of(line@),
{
    proof {
        crate::text::lemma_find_sub(line@, "PING :"@);
        reveal_strlit("PING :");
    }
    let i = match crate::text::find_substr(line, "PING :") {
        Some(i) => i,
        None => {
            return vstd::pervasive::unreached();
        },
    };
    proof {
        assert(crate::text::sub_at(line@, "PING :"@, i as int));
    }
    let n = line.unicode_len();
    let mut s = line.substring_char(0, i).to_owned();
    s.append("PONG");
    s.append(line.substring_char(i + 4, n));
    proof {
        assert(line@.subrange(0, i as int) =~= line@.take(i as int));
        assert(line@.subrange(i + 4, n as int) =~= line@.skip(i + 4));
        assert(s@ =~= pong_of(line@));
    }
    s
}

/// `JOIN #<channel>` with terminator.
pub open spec fn join_line_text(channel: Seq<char>) -> Seq<char> {
    "JOIN #"@ + channel + "\r\n"@
}

pub fn join_line(channel: &str) -> (r: String)
    ensures
        r@ == join_line_text(channel@),
{
    let mut s = String::new();
    s.append("JOIN #");
    s.append(channel);
    s.append("\r\n");
    proof {
        assert(s@ =~= join_line_text(channel@));
    }
    s
}

/// `NICK <nickname>` with terminator.
pub open spec fn nick_line_text(nickname: Seq<char>) -> Seq<char> {
    "NICK "@ + nickname + "\r\n"@
}

/// `USER <nickname> 0 * <nickname>` with terminator.
pub open spec fn user_line_text(nickname: Seq<char>) -> Seq<char> {
    "USER "@ + nickname + " 0 * "@ + nickname + "\r\n"@
}

/// The two registration lines sent right after connecting.
pub fn login_lines(config: &Config) -> (r: Vec<String>)
    ensures
        r.deep_view() == seq![nick_line_text(config.nickname@), user_line_text(config.nickname@)],
{
    let mut nick = String::new();
    nick.append("NICK ");
    nick.append(config.nickname.as_str());
    nick.append("\r\n");
    let mut user = String::new();
    user.append("USER ");
    user.append(config.nickname.as_str());
    user.append(" 0 * ");
    user.append(config.nickname.as_str());
    user.append("\r\n");
    let mut out: Vec<String> = Vec::new();
    out.push(nick);
    out.push(user);
    proof {
        assert(nick@ =~= nick_line_text(config.nickname@));
        assert(user@ =~= user_line_text(config.nickname@));
        assert(out.deep_view() =~= seq![
            nick_line_text(config.nickname@),
            user_line_text(config.nickname@),
        ]);
    }
    out
}

/// `PRIVMSG <bot> :xdcc send #<package>` with terminator.
pub open spec fn request_line_text(bot: Seq<char>, package: Seq<char>) -> Seq<char> {
    "PRIVMSG "@ + bot + " :xdcc send #"@ + package + "\r\n"@
}

pub fn request_line(bot: &str, package: &str) -> (r: String)
    ensures
        r@ == request_line_text(bot@, package@),
{
    let mut s = String::new();
    s.append("PRIVMSG ");
    s.append(bot);
    s.append(" :xdcc send #");
    s.append(package);
    s.append("\r\n");
    proof {
        assert(s@ =~= request_line_text(bot@, package@));
    }
    s
}

/// The farewell line sent when the session ends.
pub open spec fn quit_line_text() -> Seq<char> {
    "QUIT :my job is done here!\r\n"@
}

pub fn quit_line() -> (r: String)
    ensures
        r@ == quit_line_text(),
{
    "QUIT :my job is done here!\r\n".to_owned()
}

/// A parsed IPv6 address renders back to a text form that parses to the
/// same eight groups.
#[verifier::rlimit(60)]
pub proof fn lemma_v6_round_trip(
    g0: u16,
    g1: u16,
    g2: u16,
    g3: u16,
    g4: u16,
    g5: u16,
    g6: u16,
    g7: u16,
)
    ensures
        parse_v6(ip_text(IpAddress::V6(g0, g1, g2, g3, g4, g5, g6, g7))) == Some(
            seq![g0, g1, g2, g3, g4, g5, g6, g7],
        ),
        parse_address(ip_text(IpAddress::V6(g0, g1, g2, g3, g4, g5, g6, g7))) == Some(
            IpAddress::V6(g0, g1, g2, g3, g4, g5, g6, g7),
        ),
{
    let parts = v6_parts(g0, g1, g2, g3, g4, g5, g6, g7);
    let flat = ip_text(IpAddress::V6(g0, g1, g2, g3, g4, g5, g6, g7));
    lemma_v6_text_is_join(g0, g1, g2, g3, g4, g5, g6, g7);
    lemma_v6_parts_ok(g0, g1, g2, g3, g4, g5, g6, g7);
    lemma_v6_parts_colon_free(g0, g1, g2, g3, g4, g5, g6, g7);
    lemma_v6_parts_vals(g0, g1, g2, g3, g4, g5, g6, g7);
    crate::text::lemma_join_no_adjacent(parts, ':');
    crate::text::lemma_no_adjacent_no_double(flat, ':');
    crate::text::lemma_split_join(parts, ':');
    let g = parse_v6(flat);
    assert(g == Some(parts_vals(parts)));
    assert(!crate::digits::dec_seq_valid(flat)) by {
        crate::digits::lemma_hex_chars_len_u16(g0 as nat);
        if crate::digits::dec_seq_valid(flat) {
            let h0 = crate::digits::hex_chars(g0 as nat);
            assert(flat[h0.len() as int] == ':');
            assert(crate::digits::is_dec_digit(flat[h0.len() as int]));
        }
    }
}

} // verus!
