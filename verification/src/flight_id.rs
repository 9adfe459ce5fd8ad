use vstd::arithmetic::div_mod::lemma_fundamental_div_mod;
use vstd::prelude::*;
use vstd::string::StrSliceExecFns;
use vstd::string::StringExecFns;

verus! {

/// Number of hexadecimal characters in the wire form of an identifier.
pub const ID_HEX_LEN: usize = 24;

/// One more than the largest identifier value: 16 to the power 24.
pub const ID_LIMIT: u128 = 0x1000000000000000000000000;

/// A store-native document identifier: a 96-bit value, assigned by the store
/// at creation and rendered on the wire as 24 hexadecimal characters.
#[derive(Debug, Clone, Copy, PartialEq, Eq)]
pub struct FlightId {
    pub value: u128,
}

impl FlightId {
    /// An identifier value small enough to render in 24 hexadecimal digits.
    pub open spec fn wf(self) -> bool {
        self.value < ID_LIMIT
    }
}

pub open spec fn is_hex_digit(c: char) -> bool {
    ('0' <= c && c <= '9') || ('a' <= c && c <= 'f') || ('A' <= c && c <= 'F')
}

/// The numeric value of one hexadecimal digit.
pub open spec fn hex_digit_val(c: char) -> int {
    if '0' <= c && c <= '9' {
        c as u32 - '0' as u32
    } else if 'a' <= c && c <= 'f' {
        c as u32 - 'a' as u32 + 10
    } else {
        c as u32 - 'A' as u32 + 10
    }
}

/// A well-formed identifier string: exactly 24 hexadecimal characters.
pub open spec fn is_id_str(s: Seq<char>) -> bool {
    s.len() == ID_HEX_LEN && forall|i: int| 0 <= i < s.len() ==> is_hex_digit(#[trigger] s[i])
}

/// The numeric value of a big-endian string of hexadecimal digits.
pub open spec fn hex_val(s: Seq<char>) -> int
    decreases s.len(),
{
    if s.len() == 0 {
        0
    } else {
        hex_val(s.drop_last()) * 16 + hex_digit_val(s.last())
    }
}

/// 16 to the power k.
pub open spec fn pow16(k: nat) -> nat
    decreases k,
{
    if k == 0 {
        1
    } else {
        16 * pow16((k - 1) as nat)
    }
}

proof fn lemma_pow16_pos(k: nat)
    ensures
        pow16(k) >= 1,
    decreases k,
{
    if k > 0 {
        lemma_pow16_pos((k - 1) as nat);
    }
}

proof fn lemma_pow16_mono(j: nat, k: nat)
    requires
        j <= k,
    ensures
        pow16(j) <= pow16(k),
    decreases k,
{
    if j < k {
        lemma_pow16_mono(j, (k - 1) as nat);
        lemma_pow16_pos((k - 1) as nat);
    }
}

/// The identifier space: 24 hexadecimal digits cover exactly the values
/// below `ID_LIMIT`.
proof fn lemma_pow16_id_limit()
    ensures
        pow16(ID_HEX_LEN as nat) == ID_LIMIT,
{
    reveal_with_fuel(pow16, 25);
}

/// Numeric value of one hexadecimal digit character, if it is one.
fn hex_digit_of(c: char) -> (r: Option<u8>)
    ensures
        match r {
            Some(v) => is_hex_digit(c) && v < 16 && v as int == hex_digit_val(c),
            None => !is_hex_digit(c),
        },
{
    let u = c as u32;
    if '0' as u32 <= u && u <= '9' as u32 {
        Some((u - '0' as u32) as u8)
    } else if 'a' as u32 <= u && u <= 'f' as u32 {
        Some((u - 'a' as u32 + 10) as u8)
    } else if 'A' as u32 <= u && u <= 'F' as u32 {
        Some((u - 'A' as u32 + 10) as u8)
    } else {
        None
    }
}

/// Parse the wire form of a store identifier. Succeeds exactly on strings of
/// 24 hexadecimal characters; every other string is malformed and yields
/// `None`, never a fault.
pub fn parse_flight_id(s: &str) -> (r: Option<FlightId>)
    ensures
        match r {
            Some(id) => is_id_str(s@) && id.value as int == hex_val(s@) && id.wf(),
            None => !is_id_str(s@),
        },
{
    let n = s.unicode_len();
    if n != ID_HEX_LEN {
        return None;
    }
    let mut v: u128 = 0;
    let mut i: usize = 0;
    while i < ID_HEX_LEN
        invariant
            s@.len() == ID_HEX_LEN,
            i <= ID_HEX_LEN,
            forall|j: int| 0 <= j < i ==> is_hex_digit(#[trigger] s@[j]),
            v as int == hex_val(s@.take(i as int)),
            (v as nat) < pow16(i as nat),
        decreases ID_HEX_LEN - i,
    {
        let c = s.get_char(i);
        match hex_digit_of(c) {
            None => {
                return None;
            },
            Some(d) => {
                proof {
                    lemma_pow16_mono((i + 1) as nat, ID_HEX_LEN as nat);
                    lemma_pow16_id_limit();
                    assert(v * 16 + 16 <= pow16((i + 1) as nat)) by (nonlinear_arith)
                        requires
                            (v as nat) < pow16(i as nat),
                            pow16((i + 1) as nat) == 16 * pow16(i as nat),
                    {
                    }
                    assert(s@.take(i + 1).drop_last() =~= s@.take(i as int));
                    assert(s@.take(i + 1).last() == s@[i as int]);
                }
                v = v * 16 + (d as u128);
                i = i + 1;
            },
        }
    }
    proof {
        assert(s@.take(ID_HEX_LEN as int) =~= s@);
        lemma_pow16_id_limit();
    }
    Some(FlightId { value: v })
}

/// One hexadecimal digit as a character, lower case.
spec fn hex_char_of(v: int) -> char {
    if v == 0 {
        '0'
    } else if v == 1 {
        '1'
    } else if v == 2 {
        '2'
    } else if v == 3 {
        '3'
    } else if v == 4 {
        '4'
    } else if v == 5 {
        '5'
    } else if v == 6 {
        '6'
    } else if v == 7 {
        '7'
    } else if v == 8 {
        '8'
    } else if v == 9 {
        '9'
    } else if v == 10 {
        'a'
    } else if v == 11 {
        'b'
    } else if v == 12 {
        'c'
    } else if v == 13 {
        'd'
    } else if v == 14 {
        'e'
    } else {
        'f'
    }
}

fn hex_digit_str(d: u8) -> (r: &'static str)
    requires
        d < 16,
    ensures
        r@.len() == 1,
        r@[0] == hex_char_of(d as int),
        is_hex_digit(r@[0]),
        hex_digit_val(r@[0]) == d as int,
{
    proof {
        reveal_strlit("0");
        reveal_strlit("1");
        reveal_strlit("2");
        reveal_strlit("3");
        reveal_strlit("4");
        reveal_strlit("5");
        reveal_strlit("6");
        reveal_strlit("7");
        reveal_strlit("8");
        reveal_strlit("9");
        reveal_strlit("a");
        reveal_strlit("b");
        reveal_strlit("c");
        reveal_strlit("d");
        reveal_strlit("e");
        reveal_strlit("f");
    }
    if d == 0 {
        "0"
    } else if d == 1 {
        "1"
    } else if d == 2 {
        "2"
    } else if d == 3 {
        "3"
    } else if d == 4 {
        "4"
    } else if d == 5 {
        "5"
    } else if d == 6 {
        "6"
    } else if d == 7 {
        "7"
    } else if d == 8 {
        "8"
    } else if d == 9 {
        "9"
    } else if d == 10 {
        "a"
    } else if d == 11 {
        "b"
    } else if d == 12 {
        "c"
    } else if d == 13 {
        "d"
    } else if d == 14 {
        "e"
    } else {
        "f"
    }
}

fn pow16_exec(k: usize) -> (r: u128)
    requires
        k < ID_HEX_LEN,
    ensures
        r as nat == pow16(k as nat),
        r >= 1,
{
    let mut r: u128 = 1;
    let mut j: usize = 0;
    while j < k
        invariant
            j <= k,
            k < ID_HEX_LEN,
            r as nat == pow16(j as nat),
        decreases k - j,
    {
        proof {
            lemma_pow16_mono((j + 1) as nat, ID_HEX_LEN as nat);
            lemma_pow16_id_limit();
        }
        r = r * 16;
        j = j + 1;
    }
    proof {
        lemma_pow16_pos(k as nat);
    }
    r
}

impl FlightId {
    /// Render the identifier in its wire form: 24 lower-case hexadecimal
    /// characters, most significant digit first. Parsing the result gives
    /// back exactly this identifier.
    pub fn to_hex(&self) -> (r: String)
        requires
            self.wf(),
        ensures
            is_id_str(r@),
            hex_val(r@) == self.value as int,
    {
        let mut out = String::new();
        let mut rem: u128 = self.value;
        let mut i: usize = 0;
        proof {
            lemma_pow16_id_limit();
        }
        while i < ID_HEX_LEN
            invariant
                i <= ID_HEX_LEN,
                out@.len() == i,
                forall|j: int| 0 <= j < i ==> is_hex_digit(#[trigger] out@[j]),
                (rem as nat) < pow16((ID_HEX_LEN - i) as nat),
                hex_val(out@) * pow16((ID_HEX_LEN - i) as nat) + rem == self.value,
            decreases ID_HEX_LEN - i,
        {
            let p = pow16_exec(ID_HEX_LEN - 1 - i);
            proof {
                assert(pow16((ID_HEX_LEN - i) as nat) == 16 * pow16((ID_HEX_LEN - 1 - i) as nat));
            }
            let d = rem / p;
            proof {
                assert(d < 16) by (nonlinear_arith)
                    requires
                        d == rem / p,
                        (rem as nat) < 16 * (p as nat),
                        p >= 1,
                {
                }
            }
            let c = hex_digit_str(d as u8);
            let ghost prefix = out@;
            let ghost hv = hex_val(out@);
            out.append(c);
            proof {
                assert(out@.drop_last() =~= prefix);
                assert(out@.last() == hex_char_of(d as int));
                assert(hex_val(out@) == hv * 16 + d);
                lemma_fundamental_div_mod(rem as int, p as int);
                assert((hv * 16 + d) * pow16((ID_HEX_LEN - 1 - i) as nat) + (rem as int % p as int)
                    == self.value) by (nonlinear_arith)
                    requires
                        rem == p * d + (rem as int % p as int),
                        hv * pow16((ID_HEX_LEN - i) as nat) + rem == self.value,
                        pow16((ID_HEX_LEN - i) as nat) == 16 * pow16((ID_HEX_LEN - 1 - i) as nat),
                        (p as nat) == pow16((ID_HEX_LEN - 1 - i) as nat),
                {
                }
            }
            rem = rem % p;
            i = i + 1;
        }
        proof {
            assert(pow16((ID_HEX_LEN - i) as nat) == 1);
            assert(rem == 0);
            assert(hex_val(out@) * 1 == hex_val(out@));
        }
        out
    }
}

} // verus!
