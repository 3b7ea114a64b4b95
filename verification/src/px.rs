//! A pixel as four explicit channel bytes, with constructors from packed
//! hex values and from hex-written strings.

use vstd::prelude::*;
use vstd::string::StringSliceAdditionalSpecFns;

verus! {

/// True for an ASCII hexadecimal digit.
pub open spec fn is_hex_digit(b: u8) -> bool {
    (48 <= b <= 57) || (97 <= b <= 102) || (65 <= b <= 70)
}

/// The value of one hexadecimal digit.
pub open spec fn hex_digit_val(b: u8) -> int {
    if 48 <= b <= 57 {
        b - 48
    } else if 97 <= b <= 102 {
        b - 87
    } else {
        b - 55
    }
}

/// The value of a string of hexadecimal digits, most significant first.
pub open spec fn hex_num(s: Seq<u8>) -> int
    decreases s.len(),
{
    if s.len() == 0 {
        0
    } else {
        hex_num(s.drop_last()) * 16 + hex_digit_val(s.last())
    }
}

/// The bytes with every leading `#` removed.
pub open spec fn strip_hash(s: Seq<u8>) -> Seq<u8>
    decreases s.len(),
{
    if s.len() > 0 && s[0] == 35 {
        strip_hash(s.drop_first())
    } else {
        s
    }
}

/// The bytes with every leading `0x` pair removed.
pub open spec fn strip_0x(s: Seq<u8>) -> Seq<u8>
    decreases s.len(),
{
    if s.len() >= 2 && s[0] == 48 && s[1] == 120 {
        strip_0x(s.skip(2))
    } else {
        s
    }
}

/// The color value a hex string stands for: its digits after the `#` and
/// `0x` prefixes are stripped, or zero when what remains is not a
/// representable hex number.
pub open spec fn hex_str_val(s: Seq<u8>) -> u32 {
    let t = strip_0x(strip_hash(s));
    if t.len() > 0 && (forall|i: int| 0 <= i < t.len() ==> is_hex_digit(#[trigger] t[i]))
        && hex_num(t) <= u32::MAX {
        hex_num(t) as u32
    } else {
        0
    }
}

/// A pixel as red, green, blue and alpha channel bytes.
#[derive(Debug, Clone, Copy, PartialEq, Eq, Structural)]
pub struct Px {
    pub r: u8,
    pub g: u8,
    pub b: u8,
    pub a: u8,
}

/// The pixel a packed hex value stands for: a nonzero top byte carries the
/// alpha in the low byte; a bare RGB value is fully opaque.
pub open spec fn spec_px_hex(val: u32) -> Px {
    if val >= 0x1000000 {
        Px {
            r: (val / 0x1000000) as u8,
            g: ((val / 0x10000) % 0x100) as u8,
            b: ((val / 0x100) % 0x100) as u8,
            a: (val % 0x100) as u8,
        }
    } else {
        Px { r: (val / 0x10000) as u8, g: ((val / 0x100) % 0x100) as u8, b: (val % 0x100) as u8, a: 255 }
    }
}

impl Px {
    /// A fully opaque pixel from three channel bytes.
    pub fn rgb(r: u8, g: u8, b: u8) -> (o: Px)
        ensures
            o == (Px { r, g, b, a: 255 }),
    {
        Px { r, g, b, a: 255 }
    }

    /// A pixel from all four channel bytes.
    pub fn rgba(r: u8, g: u8, b: u8, a: u8) -> (o: Px)
        ensures
            o == (Px { r, g, b, a }),
    {
        Px { r, g, b, a }
    }

    /// A `w`-by-`h` grid of rows, every cell holding `px`.
    pub fn rect(w: u32, h: u32, px: Px) -> (o: Vec<Vec<Px>>)
        ensures
            o@.len() == h,
            forall|i: int|
                0 <= i < h ==> (#[trigger] o@[i])@.len() == w && forall|j: int|
                    0 <= j < w ==> o@[i]@[j] == px,
    {
        let mut rect: Vec<Vec<Px>> = Vec::new();
        let mut i: u32 = 0;
        while i < h
            invariant
                i <= h,
                rect@.len() == i,
                forall|k: int|
                    0 <= k < i ==> (#[trigger] rect@[k])@.len() == w && forall|j: int|
                        0 <= j < w ==> rect@[k]@[j] == px,
            decreases h - i,
        {
            let mut row: Vec<Px> = Vec::new();
            let mut j: u32 = 0;
            while j < w
                invariant
                    j <= w,
                    row@.len() == j,
                    forall|t: int| 0 <= t < j ==> row@[t] == px,
                decreases w - j,
            {
                row.push(px);
                j += 1;
            }
            rect.push(row);
            i += 1;
        }
        rect
    }

    /// Reads a pixel from a packed hex value; a nonzero top byte carries
    /// the alpha channel, a bare RGB value is fully opaque.
    pub fn hex(val: u32) -> (o: Px)
        ensures
            o == spec_px_hex(val),
    {
        if val >= 0x1000000 {
            Px {
                r: (val / 0x1000000) as u8,
                g: ((val / 0x10000) % 0x100) as u8,
                b: ((val / 0x100) % 0x100) as u8,
                a: (val % 0x100) as u8,
            }
        } else {
            Px {
                r: (val / 0x10000) as u8,
                g: ((val / 0x100) % 0x100) as u8,
                b: (val % 0x100) as u8,
                a: 255,
            }
        }
    }

    /// Reads a pixel from a packed hex value with all four channels.
    pub fn hexa(val: u32) -> (o: Px)
        ensures
            o == (Px {
                r: (val / 0x1000000) as u8,
                g: ((val / 0x10000) % 0x100) as u8,
                b: ((val / 0x100) % 0x100) as u8,
                a: (val % 0x100) as u8,
            }),
    {
        Px {
            r: (val / 0x1000000) as u8,
            g: ((val / 0x10000) % 0x100) as u8,
            b: ((val / 0x100) % 0x100) as u8,
            a: (val % 0x100) as u8,
        }
    }

    /// Reads a pixel from a hex-written string such as `#a0b0c0` or
    /// `0xa0b0c0`; anything unparsable counts as zero.
    pub fn hex_str(val: &str) -> (o: Px)
        ensures
            o == spec_px_hex(hex_str_val(val.spec_bytes())),
    {
        let bytes = val.as_bytes();
        let n = bytes.len();
        let ghost all = bytes@;
        let mut start: usize = 0;
        proof {
            assert(all.skip(0) =~= all);
        }
        while start < n && bytes[start] == 35
            invariant
                n == all.len(),
                bytes@ == all,
                start <= n,
                strip_hash(all) == strip_hash(all.skip(start as int)),
            decreases n - start,
        {
            proof {
                assert(all.skip(start as int).drop_first() =~= all.skip(start as int + 1));
            }
            start += 1;
        }
        proof {
            assert(strip_hash(all.skip(start as int)) =~= all.skip(start as int));
        }
        while start < n && start + 1 < n && bytes[start] == 48 && bytes[start + 1] == 120
            invariant
                n == all.len(),
                bytes@ == all,
                start <= n,
                strip_0x(strip_hash(all)) == strip_0x(all.skip(start as int)),
            decreases n - start,
        {
            proof {
                assert(all.skip(start as int).skip(2) =~= all.skip(start as int + 2));
            }
            start += 2;
        }
        proof {
            assert(strip_0x(all.skip(start as int)) =~= all.skip(start as int));
        }
        let ghost t = all.skip(start as int);
        if start >= n {
            proof {
                assert(t.len() == 0);
            }
            return Px::hex(0);
        }
        let mut acc: u32 = 0;
        let mut k = start;
        proof {
            assert(t.subrange(0, 0) =~= Seq::<u8>::empty());
        }
        while k < n
            invariant
                n == all.len(),
                bytes@ == all,
                start <= k <= n,
                start < n,
                all == val.spec_bytes(),
                t == all.skip(start as int),
                strip_0x(strip_hash(all)) == t,
                forall|i: int| start <= i < k ==> is_hex_digit(#[trigger] all[i]),
                hex_num(t.subrange(0, k - start)) == acc,
            decreases n - k,
        {
            let b = bytes[k];
            proof {
                assert(t[k - start] == all[k as int]);
            }
            let d: u32 = if 48 <= b && b <= 57 {
                (b - 48) as u32
            } else if 97 <= b && b <= 102 {
                (b - 87) as u32
            } else if 65 <= b && b <= 70 {
                (b - 55) as u32
            } else {
                proof {
                    assert(!is_hex_digit(t[k - start]));
                }
                return Px::hex(0);
            };
            if acc > 0xFFFFFFF {
                proof {
                    if forall|i: int| 0 <= i < t.len() ==> is_hex_digit(#[trigger] t[i]) {
                        lemma_hex_num_prefix_overflow(t, k - start);
                    }
                }
                return Px::hex(0);
            }
            let ghost pre = t.subrange(0, k - start);
            acc = acc * 16 + d;
            k += 1;
            proof {
                let cur = t.subrange(0, k - start);
                assert(cur.drop_last() =~= pre);
                assert(cur.last() == all[k - 1]);
            }
        }
        proof {
            assert(t.subrange(0, n - start as int) =~= t);
            assert forall|i: int| 0 <= i < t.len() implies is_hex_digit(#[trigger] t[i]) by {
                assert(t[i] == all[start + i]);
            }
        }
        Px::hex(acc)
    }

    /// The four channel bytes, red first.
    pub fn as_bytes(&self) -> (o: [u8; 4])
        ensures
            o@ == seq![self.r, self.g, self.b, self.a],
    {
        let o = [self.r, self.g, self.b, self.a];
        proof {
            assert(o@ =~= seq![self.r, self.g, self.b, self.a]);
        }
        o
    }
}

/// A string of digits has a non-negative value.
proof fn lemma_hex_num_nonneg(s: Seq<u8>)
    requires
        forall|i: int| 0 <= i < s.len() ==> is_hex_digit(#[trigger] s[i]),
    ensures
        hex_num(s) >= 0,
    decreases s.len(),
{
    if s.len() > 0 {
        assert(forall|i: int|
            0 <= i < s.drop_last().len() ==> is_hex_digit(#[trigger] s.drop_last()[i]));
        lemma_hex_num_nonneg(s.drop_last());
        assert(hex_num(s.drop_last()) * 16 >= 0) by (nonlinear_arith)
            requires
                hex_num(s.drop_last()) >= 0,
        ;
    }
}

/// Appending digits never shrinks the value.
proof fn lemma_hex_num_extend(s: Seq<u8>, k: int)
    requires
        0 <= k <= s.len(),
        forall|i: int| 0 <= i < s.len() ==> is_hex_digit(#[trigger] s[i]),
    ensures
        hex_num(s) >= hex_num(s.subrange(0, k)),
    decreases s.len() - k,
{
    if k == s.len() {
        assert(s.subrange(0, k) =~= s);
    } else {
        let pre = s.subrange(0, k);
        let nxt = s.subrange(0, k + 1);
        assert(nxt.drop_last() =~= pre);
        assert(forall|i: int| 0 <= i < pre.len() ==> is_hex_digit(#[trigger] pre[i]));
        lemma_hex_num_nonneg(pre);
        assert(hex_num(nxt) == hex_num(pre) * 16 + hex_digit_val(s[k]));
        assert(hex_num(pre) * 16 >= hex_num(pre)) by (nonlinear_arith)
            requires
                hex_num(pre) >= 0,
        ;
        lemma_hex_num_extend(s, k + 1);
    }
}

/// Once a strict digit prefix already exceeds what fits, the whole digit
/// string does.
proof fn lemma_hex_num_prefix_overflow(s: Seq<u8>, k: int)
    requires
        0 <= k < s.len(),
        hex_num(s.subrange(0, k)) > 0xFFFFFFF,
        forall|i: int| 0 <= i < s.len() ==> is_hex_digit(#[trigger] s[i]),
    ensures
        hex_num(s) > u32::MAX,
{
    let pre = s.subrange(0, k);
    let nxt = s.subrange(0, k + 1);
    assert(nxt.drop_last() =~= pre);
    assert(hex_num(nxt) == hex_num(pre) * 16 + hex_digit_val(s[k]));
    assert(hex_digit_val(s[k]) >= 0);
    assert(hex_num(pre) * 16 > 0xFFFFFFF * 16) by (nonlinear_arith)
        requires
            hex_num(pre) > 0xFFFFFFF,
    ;
    lemma_hex_num_extend(s, k + 1);
}

} // verus!
