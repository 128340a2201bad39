//! Catalog of MELSEC Q-series device types and resolution of device-address
//! strings (such as "D1000" or "W20") into their 4-byte wire encoding:
//! a 3-byte little-endian numeric address followed by the device-type code.
use vstd::prelude::*;

verus! {

/// Whether a device holds single on/off flags or 16-bit words.
#[derive(Clone, Copy, PartialEq, Eq, Structural, Debug)]
pub enum DeviceType {
    BIT,
    WORD,
}

/// The numeric base in which a device's address portion is written.
#[derive(Clone, Copy, PartialEq, Eq, Structural, Debug)]
pub enum AddressBase {
    DECIMAL,
    HEX,
}

impl DeviceType {
    pub fn to_string(&self) -> (r: &'static str)
        ensures
            *self == DeviceType::BIT ==> r@ == "BIT"@,
            *self == DeviceType::WORD ==> r@ == "WORD"@,
    {
        match self {
            DeviceType::BIT => "BIT",
            DeviceType::WORD => "WORD",
        }
    }
}

/// One entry of the device catalog.
#[derive(Clone, Copy, Debug)]
pub struct DeviceInfo {
    pub name: &'static str,
    pub code: u8,
    pub base: AddressBase,
    pub class: DeviceType,
    pub description: &'static str,
}

/// The mathematical image of a catalog entry.
pub struct DeviceEntry {
    pub name: Seq<char>,
    pub code: u8,
    pub base: AddressBase,
    pub class: DeviceType,
    pub description: Seq<char>,
}

impl View for DeviceInfo {
    type V = DeviceEntry;

    open spec fn view(&self) -> DeviceEntry {
        DeviceEntry {
            name: self.name@,
            code: self.code,
            base: self.base,
            class: self.class,
            description: self.description@,
        }
    }
}

/// The full catalog, two-character names before one-character names so that a
/// first-match scan gives longest-prefix semantics.
pub open spec fn catalog() -> Seq<DeviceEntry> {
    seq![
        DeviceEntry { name: "SM"@, code: 0x91, base: AddressBase::DECIMAL, class: DeviceType::BIT, description: "special relay"@ },
        DeviceEntry { name: "SD"@, code: 0xA9, base: AddressBase::DECIMAL, class: DeviceType::WORD, description: "special register"@ },
        DeviceEntry { name: "TS"@, code: 0xC1, base: AddressBase::DECIMAL, class: DeviceType::BIT, description: "timer contact"@ },
        DeviceEntry { name: "TC"@, code: 0xC0, base: AddressBase::DECIMAL, class: DeviceType::BIT, description: "timer coil"@ },
        DeviceEntry { name: "TN"@, code: 0xC2, base: AddressBase::DECIMAL, class: DeviceType::WORD, description: "timer current value"@ },
        DeviceEntry { name: "SS"@, code: 0xC7, base: AddressBase::DECIMAL, class: DeviceType::BIT, description: "retentive timer contact"@ },
        DeviceEntry { name: "SC"@, code: 0xC6, base: AddressBase::DECIMAL, class: DeviceType::BIT, description: "retentive timer coil"@ },
        DeviceEntry { name: "SN"@, code: 0xC8, base: AddressBase::DECIMAL, class: DeviceType::WORD, description: "retentive timer current value"@ },
        DeviceEntry { name: "CS"@, code: 0xC4, base: AddressBase::DECIMAL, class: DeviceType::BIT, description: "counter contact"@ },
        DeviceEntry { name: "CC"@, code: 0xC3, base: AddressBase::DECIMAL, class: DeviceType::BIT, description: "counter coil"@ },
        DeviceEntry { name: "CN"@, code: 0xC5, base: AddressBase::DECIMAL, class: DeviceType::WORD, description: "counter current value"@ },
        DeviceEntry { name: "SB"@, code: 0xA1, base: AddressBase::HEX, class: DeviceType::BIT, description: "link special relay"@ },
        DeviceEntry { name: "SW"@, code: 0xB5, base: AddressBase::HEX, class: DeviceType::WORD, description: "link special register"@ },
        DeviceEntry { name: "DX"@, code: 0xA2, base: AddressBase::HEX, class: DeviceType::BIT, description: "direct access input"@ },
        DeviceEntry { name: "DY"@, code: 0xA3, base: AddressBase::HEX, class: DeviceType::BIT, description: "direct access output"@ },
        DeviceEntry { name: "ZR"@, code: 0xB0, base: AddressBase::DECIMAL, class: DeviceType::WORD, description: "file register"@ },
        DeviceEntry { name: "X"@, code: 0x9C, base: AddressBase::HEX, class: DeviceType::BIT, description: "input"@ },
        DeviceEntry { name: "Y"@, code: 0x9D, base: AddressBase::HEX, class: DeviceType::BIT, description: "output"@ },
        DeviceEntry { name: "M"@, code: 0x90, base: AddressBase::DECIMAL, class: DeviceType::BIT, description: "internal relay"@ },
        DeviceEntry { name: "L"@, code: 0x92, base: AddressBase::DECIMAL, class: DeviceType::BIT, description: "latch relay"@ },
        DeviceEntry { name: "F"@, code: 0x93, base: AddressBase::DECIMAL, class: DeviceType::BIT, description: "annunciator"@ },
        DeviceEntry { name: "V"@, code: 0x94, base: AddressBase::DECIMAL, class: DeviceType::BIT, description: "edge relay"@ },
        DeviceEntry { name: "B"@, code: 0xA0, base: AddressBase::HEX, class: DeviceType::BIT, description: "link relay"@ },
        DeviceEntry { name: "D"@, code: 0xA8, base: AddressBase::DECIMAL, class: DeviceType::WORD, description: "data register"@ },
        DeviceEntry { name: "W"@, code: 0xB4, base: AddressBase::HEX, class: DeviceType::WORD, description: "link register"@ },
        DeviceEntry { name: "Z"@, code: 0xCC, base: AddressBase::DECIMAL, class: DeviceType::WORD, description: "index register"@ },
        DeviceEntry { name: "R"@, code: 0xAF, base: AddressBase::DECIMAL, class: DeviceType::WORD, description: "file register"@ },
    ]
}

/// The catalog as a run-time value, entry for entry the catalog above.
pub fn device_list() -> (r: Vec<DeviceInfo>)
    ensures
        r@.len() == catalog().len(),
        forall|i: int| 0 <= i < r@.len() ==> (#[trigger] r@[i])@ == catalog()[i],
{
    let mut r: Vec<DeviceInfo> = Vec::new();
    r.push(DeviceInfo { name: "SM", code: 0x91, base: AddressBase::DECIMAL, class: DeviceType::BIT, description: "special relay" });
    r.push(DeviceInfo { name: "SD", code: 0xA9, base: AddressBase::DECIMAL, class: DeviceType::WORD, description: "special register" });
    r.push(DeviceInfo { name: "TS", code: 0xC1, base: AddressBase::DECIMAL, class: DeviceType::BIT, description: "timer contact" });
    r.push(DeviceInfo { name: "TC", code: 0xC0, base: AddressBase::DECIMAL, class: DeviceType::BIT, description: "timer coil" });
    r.push(DeviceInfo { name: "TN", code: 0xC2, base: AddressBase::DECIMAL, class: DeviceType::WORD, description: "timer current value" });
    r.push(DeviceInfo { name: "SS", code: 0xC7, base: AddressBase::DECIMAL, class: DeviceType::BIT, description: "retentive timer contact" });
    r.push(DeviceInfo { name: "SC", code: 0xC6, base: AddressBase::DECIMAL, class: DeviceType::BIT, description: "retentive timer coil" });
    r.push(DeviceInfo { name: "SN", code: 0xC8, base: AddressBase::DECIMAL, class: DeviceType::WORD, description: "retentive timer current value" });
    r.push(DeviceInfo { name: "CS", code: 0xC4, base: AddressBase::DECIMAL, class: DeviceType::BIT, description: "counter contact" });
    r.push(DeviceInfo { name: "CC", code: 0xC3, base: AddressBase::DECIMAL, class: DeviceType::BIT, description: "counter coil" });
    r.push(DeviceInfo { name: "CN", code: 0xC5, base: AddressBase::DECIMAL, class: DeviceType::WORD, description: "counter current value" });
    r.push(DeviceInfo { name: "SB", code: 0xA1, base: AddressBase::HEX, class: DeviceType::BIT, description: "link special relay" });
    r.push(DeviceInfo { name: "SW", code: 0xB5, base: AddressBase::HEX, class: DeviceType::WORD, description: "link special register" });
    r.push(DeviceInfo { name: "DX", code: 0xA2, base: AddressBase::HEX, class: DeviceType::BIT, description: "direct access input" });
    r.push(DeviceInfo { name: "DY", code: 0xA3, base: AddressBase::HEX, class: DeviceType::BIT, description: "direct access output" });
    r.push(DeviceInfo { name: "ZR", code: 0xB0, base: AddressBase::DECIMAL, class: DeviceType::WORD, description: "file register" });
    r.push(DeviceInfo { name: "X", code: 0x9C, base: AddressBase::HEX, class: DeviceType::BIT, description: "input" });
    r.push(DeviceInfo { name: "Y", code: 0x9D, base: AddressBase::HEX, class: DeviceType::BIT, description: "output" });
    r.push(DeviceInfo { name: "M", code: 0x90, base: AddressBase::DECIMAL, class: DeviceType::BIT, description: "internal relay" });
    r.push(DeviceInfo { name: "L", code: 0x92, base: AddressBase::DECIMAL, class: DeviceType::BIT, description: "latch relay" });
    r.push(DeviceInfo { name: "F", code: 0x93, base: AddressBase::DECIMAL, class: DeviceType::BIT, description: "annunciator" });
    r.push(DeviceInfo { name: "V", code: 0x94, base: AddressBase::DECIMAL, class: DeviceType::BIT, description: "edge relay" });
    r.push(DeviceInfo { name: "B", code: 0xA0, base: AddressBase::HEX, class: DeviceType::BIT, description: "link relay" });
    r.push(DeviceInfo { name: "D", code: 0xA8, base: AddressBase::DECIMAL, class: DeviceType::WORD, description: "data register" });
    r.push(DeviceInfo { name: "W", code: 0xB4, base: AddressBase::HEX, class: DeviceType::WORD, description: "link register" });
    r.push(DeviceInfo { name: "Z", code: 0xCC, base: AddressBase::DECIMAL, class: DeviceType::WORD, description: "index register" });
    r.push(DeviceInfo { name: "R", code: 0xAF, base: AddressBase::DECIMAL, class: DeviceType::WORD, description: "file register" });
    r
}

/// `p` stands at the front of `s`.
pub open spec fn is_prefix(p: Seq<char>, s: Seq<char>) -> bool {
    p.len() <= s.len() && s.take(p.len() as int) == p
}

/// Index of the first catalog entry at or after `i` whose name prefixes `s`,
/// or -1 when none does.
pub open spec fn match_from(s: Seq<char>, i: int) -> int
    decreases catalog().len() - i,
    when 0 <= i <= catalog().len()
{
    if i >= catalog().len() {
        -1
    } else if is_prefix(catalog()[i].name, s) {
        i
    } else {
        match_from(s, i + 1)
    }
}

/// Index of the catalog entry that a device string selects, or -1.
pub open spec fn match_index(s: Seq<char>) -> int {
    match_from(s, 0)
}

/// Numeric value of one digit character, or -1 when `c` is no digit of the base.
pub open spec fn digit_val(c: char, base: AddressBase) -> int {
    let v = c as int;
    if 48 <= v <= 57 {
        v - 48
    } else if base == AddressBase::HEX && 65 <= v <= 70 {
        v - 55
    } else if base == AddressBase::HEX && 97 <= v <= 102 {
        v - 87
    } else {
        -1
    }
}

pub open spec fn radix(base: AddressBase) -> int {
    if base == AddressBase::HEX {
        16
    } else {
        10
    }
}

pub open spec fn all_digits(s: Seq<char>, base: AddressBase) -> bool {
    forall|i: int| 0 <= i < s.len() ==> digit_val(#[trigger] s[i], base) >= 0
}

/// Value of a digit string, most significant digit first.
pub open spec fn digits_val(s: Seq<char>, base: AddressBase) -> int
    decreases s.len(),
{
    if s.len() == 0 {
        0
    } else {
        digits_val(s.drop_last(), base) * radix(base) + digit_val(s.last(), base)
    }
}

/// The address an address string denotes: every character must be a digit of
/// the base, the string may not be empty, and the value must fit in 32 bits.
pub open spec fn parse_address(s: Seq<char>, base: AddressBase) -> Option<u32> {
    if s.len() > 0 && all_digits(s, base) && digits_val(s, base) <= u32::MAX {
        Some(digits_val(s, base) as u32)
    } else {
        None
    }
}

/// The 4-byte encoding a device string resolves to: the catalog entry's base
/// decides how the address portion is read, the low 3 bytes of the address are
/// laid out little-endian, and the entry's code fills the last byte.
pub open spec fn resolve_spec(s: Seq<char>) -> Option<Seq<u8>> {
    let m = match_index(s);
    if m < 0 {
        None
    } else {
        let e = catalog()[m];
        match parse_address(s.skip(e.name.len() as int), e.base) {
            Some(a) => Some(
                seq![
                    (a & 0xff) as u8,
                    ((a >> 8) & 0xff) as u8,
                    ((a >> 16) & 0xff) as u8,
                    e.code,
                ],
            ),
            None => None,
        }
    }
}

/// A catalog entry whose name opens with another character than `s` does is
/// passed over by the scan.
proof fn lemma_match_skip(s: Seq<char>, i: int)
    requires
        0 <= i < catalog().len(),
        s.len() > 0,
        catalog()[i].name.len() > 0,
        catalog()[i].name[0] != s[0],
    ensures
        match_from(s, i) == match_from(s, i + 1),
{
    if is_prefix(catalog()[i].name, s) {
        assert(s.take(catalog()[i].name.len() as int)[0] == s[0]);
    }
}

/// A catalog entry whose name differs from `s` in its second character is
/// passed over by the scan.
proof fn lemma_match_skip_second(s: Seq<char>, i: int)
    requires
        0 <= i < catalog().len(),
        s.len() > 1,
        catalog()[i].name.len() > 1,
        catalog()[i].name[1] != s[1],
    ensures
        match_from(s, i) == match_from(s, i + 1),
{
    if is_prefix(catalog()[i].name, s) {
        assert(s.take(catalog()[i].name.len() as int)[1] == s[1]);
    }
}

/// For every non-empty decimal digit string `t` whose value fits in 32 bits,
/// the device string `D` followed by `t` resolves to that value's low three
/// bytes, little-endian, followed by the data register's code 0xA8.
pub proof fn lemma_resolve_data_register(t: Seq<char>)
    requires
        t.len() > 0,
        all_digits(t, AddressBase::DECIMAL),
        digits_val(t, AddressBase::DECIMAL) <= u32::MAX,
    ensures
        resolve_spec(seq!['D'] + t) == Some(
            seq![
                (digits_val(t, AddressBase::DECIMAL) % 256) as u8,
                ((digits_val(t, AddressBase::DECIMAL) / 256) % 256) as u8,
                ((digits_val(t, AddressBase::DECIMAL) / 65536) % 256) as u8,
                0xA8u8,
            ],
        ),
{
    let s = seq!['D'] + t;
    assert(s[0] == 'D');
    assert(s[1] == t[0]);
    assert(digit_val(t[0], AddressBase::DECIMAL) >= 0);
    assert(48 <= t[0] as int <= 57);
    reveal_strlit("SM");
    reveal_strlit("SD");
    reveal_strlit("TS");
    reveal_strlit("TC");
    reveal_strlit("TN");
    reveal_strlit("SS");
    reveal_strlit("SC");
    reveal_strlit("SN");
    reveal_strlit("CS");
    reveal_strlit("CC");
    reveal_strlit("CN");
    reveal_strlit("SB");
    reveal_strlit("SW");
    reveal_strlit("DX");
    reveal_strlit("DY");
    reveal_strlit("ZR");
    reveal_strlit("X");
    reveal_strlit("Y");
    reveal_strlit("M");
    reveal_strlit("L");
    reveal_strlit("F");
    reveal_strlit("V");
    reveal_strlit("B");
    reveal_strlit("D");
    lemma_match_skip(s, 0);
    lemma_match_skip(s, 1);
    lemma_match_skip(s, 2);
    lemma_match_skip(s, 3);
    lemma_match_skip(s, 4);
    lemma_match_skip(s, 5);
    lemma_match_skip(s, 6);
    lemma_match_skip(s, 7);
    lemma_match_skip(s, 8);
    lemma_match_skip(s, 9);
    lemma_match_skip(s, 10);
    lemma_match_skip(s, 11);
    lemma_match_skip(s, 12);
    // "DX" and "DY" share the first character but no digit is 'X' or 'Y'
    lemma_match_skip_second(s, 13);
    lemma_match_skip_second(s, 14);
    lemma_match_skip(s, 15);
    lemma_match_skip(s, 16);
    lemma_match_skip(s, 17);
    lemma_match_skip(s, 18);
    lemma_match_skip(s, 19);
    lemma_match_skip(s, 20);
    lemma_match_skip(s, 21);
    lemma_match_skip(s, 22);
    assert(s.take(1) =~= "D"@);
    assert(is_prefix(catalog()[23].name, s));
    assert(match_index(s) == 23);
    assert(s.skip(1) =~= t);
    lemma_digits_val_nonneg(t, AddressBase::DECIMAL);
    let v = digits_val(t, AddressBase::DECIMAL);
    assert(parse_address(t, AddressBase::DECIMAL) == Some(v as u32));
    let a = v as u32;
    assert(a & 0xff == a % 256) by (bit_vector);
    assert((a >> 8) & 0xff == (a / 256) % 256) by (bit_vector);
    assert((a >> 16) & 0xff == (a / 65536) % 256) by (bit_vector);
    assert(resolve_spec(s)->Some_0 =~= seq![
        (v % 256) as u8,
        ((v / 256) % 256) as u8,
        ((v / 65536) % 256) as u8,
        0xA8u8,
    ]);
}

/// For every non-empty hexadecimal digit string `t` whose value fits in 32
/// bits, the device string `W` followed by `t` resolves to that value's low
/// three bytes, little-endian, followed by the link register's code 0xB4.
pub proof fn lemma_resolve_link_register(t: Seq<char>)
    requires
        t.len() > 0,
        all_digits(t, AddressBase::HEX),
        digits_val(t, AddressBase::HEX) <= u32::MAX,
    ensures
        resolve_spec(seq!['W'] + t) == Some(
            seq![
                (digits_val(t, AddressBase::HEX) % 256) as u8,
                ((digits_val(t, AddressBase::HEX) / 256) % 256) as u8,
                ((digits_val(t, AddressBase::HEX) / 65536) % 256) as u8,
                0xB4u8,
            ],
        ),
{
    let s = seq!['W'] + t;
    assert(s[0] == 'W');
    reveal_strlit("SM");
    reveal_strlit("SD");
    reveal_strlit("TS");
    reveal_strlit("TC");
    reveal_strlit("TN");
    reveal_strlit("SS");
    reveal_strlit("SC");
    reveal_strlit("SN");
    reveal_strlit("CS");
    reveal_strlit("CC");
    reveal_strlit("CN");
    reveal_strlit("SB");
    reveal_strlit("SW");
    reveal_strlit("DX");
    reveal_strlit("DY");
    reveal_strlit("ZR");
    reveal_strlit("X");
    reveal_strlit("Y");
    reveal_strlit("M");
    reveal_strlit("L");
    reveal_strlit("F");
    reveal_strlit("V");
    reveal_strlit("B");
    reveal_strlit("D");
    reveal_strlit("W");
    lemma_match_skip(s, 0);
    lemma_match_skip(s, 1);
    lemma_match_skip(s, 2);
    lemma_match_skip(s, 3);
    lemma_match_skip(s, 4);
    lemma_match_skip(s, 5);
    lemma_match_skip(s, 6);
    lemma_match_skip(s, 7);
    lemma_match_skip(s, 8);
    lemma_match_skip(s, 9);
    lemma_match_skip(s, 10);
    lemma_match_skip(s, 11);
    lemma_match_skip(s, 12);
    lemma_match_skip(s, 13);
    lemma_match_skip(s, 14);
    lemma_match_skip(s, 15);
    lemma_match_skip(s, 16);
    lemma_match_skip(s, 17);
    lemma_match_skip(s, 18);
    lemma_match_skip(s, 19);
    lemma_match_skip(s, 20);
    lemma_match_skip(s, 21);
    lemma_match_skip(s, 22);
    lemma_match_skip(s, 23);
    assert(s.take(1) =~= "W"@);
    assert(is_prefix(catalog()[24].name, s));
    assert(match_index(s) == 24);
    assert(s.skip(1) =~= t);
    lemma_digits_val_nonneg(t, AddressBase::HEX);
    let v = digits_val(t, AddressBase::HEX);
    assert(parse_address(t, AddressBase::HEX) == Some(v as u32));
    let a = v as u32;
    assert(a & 0xff == a % 256) by (bit_vector);
    assert((a >> 8) & 0xff == (a / 256) % 256) by (bit_vector);
    assert((a >> 16) & 0xff == (a / 65536) % 256) by (bit_vector);
    assert(resolve_spec(s)->Some_0 =~= seq![
        (v % 256) as u8,
        ((v / 256) % 256) as u8,
        ((v / 65536) % 256) as u8,
        0xB4u8,
    ]);
}

/// The characters of `s` as a vector.
fn chars_of(s: &str) -> (r: Vec<char>)
    ensures
        r@ == s@,
{
    let n = s.unicode_len();
    let mut r: Vec<char> = Vec::new();
    let mut i: usize = 0;
    while i < n
        invariant
            i <= n,
            n == s@.len(),
            r@ == s@.take(i as int),
        decreases n - i,
    {
        r.push(s.get_char(i));
        proof {
            assert(r@ =~= s@.take(i + 1));
        }
        i += 1;
    }
    proof {
        assert(r@ =~= s@);
    }
    r
}

/// Whether `name` stands at the front of `s`.
fn has_prefix(s: &Vec<char>, name: &str) -> (r: bool)
    ensures
        r == is_prefix(name@, s@),
{
    let n = name.unicode_len();
    if n > s.len() {
        return false;
    }
    let mut j: usize = 0;
    while j < n
        invariant
            j <= n,
            n == name@.len(),
            n <= s@.len(),
            forall|k: int| 0 <= k < j ==> name@[k] == s@[k],
        decreases n - j,
    {
        if name.get_char(j) != s[j] {
            return false;
        }
        j += 1;
    }
    proof {
        assert(s@.take(n as int) =~= name@);
    }
    true
}

proof fn lemma_digits_val_nonneg(s: Seq<char>, base: AddressBase)
    requires
        all_digits(s, base),
    ensures
        digits_val(s, base) >= 0,
    decreases s.len(),
{
    if s.len() > 0 {
        assert(all_digits(s.drop_last(), base));
        lemma_digits_val_nonneg(s.drop_last(), base);
        assert(digits_val(s.drop_last(), base) * radix(base) >= 0) by (nonlinear_arith)
            requires
                digits_val(s.drop_last(), base) >= 0,
                radix(base) >= 1,
        ;
    }
}

/// A digit string is worth at least any of its front parts.
proof fn lemma_digits_val_prefix_le(s: Seq<char>, base: AddressBase, j: int)
    requires
        all_digits(s, base),
        0 <= j <= s.len(),
    ensures
        digits_val(s.take(j), base) <= digits_val(s, base),
    decreases s.len() - j,
{
    if j < s.len() {
        lemma_digits_val_prefix_le(s, base, j + 1);
        let t = s.take(j + 1);
        assert(t.drop_last() =~= s.take(j));
        assert(all_digits(s.take(j), base));
        lemma_digits_val_nonneg(s.take(j), base);
        let p = digits_val(s.take(j), base);
        assert(digits_val(t, base) == p * radix(base) + digit_val(s[j], base));
        assert(p * radix(base) >= p) by (nonlinear_arith)
            requires
                p >= 0,
                radix(base) >= 1,
        ;
    } else {
        assert(s.take(j) =~= s);
    }
}

/// The digit a character denotes in the given base, if it is one.
fn digit_of(c: char, base: AddressBase) -> (r: Option<u8>)
    ensures
        match r {
            Some(d) => digit_val(c, base) == d as int,
            None => digit_val(c, base) < 0,
        },
{
    let v = c as u32;
    if 48 <= v && v <= 57 {
        Some((v - 48) as u8)
    } else if matches!(base, AddressBase::HEX) && 65 <= v && v <= 70 {
        Some((v - 55) as u8)
    } else if matches!(base, AddressBase::HEX) && 97 <= v && v <= 102 {
        Some((v - 87) as u8)
    } else {
        None
    }
}

/// Reads the digits of `chars` from position `from` on as one number in the
/// given base, exactly as `parse_address` defines it.
fn parse_digits(chars: &Vec<char>, from: usize, base: AddressBase) -> (r: Option<u32>)
    requires
        from <= chars@.len(),
    ensures
        r == parse_address(chars@.skip(from as int), base),
{
    let ghost s = chars@.skip(from as int);
    let n = chars.len();
    if from == n {
        return None;
    }
    let b: u32 = if matches!(base, AddressBase::HEX) {
        16
    } else {
        10
    };
    assert(b == radix(base));
    let mut acc: u32 = 0;
    let mut i: usize = from;
    while i < n
        invariant
            from <= i <= n,
            n == chars@.len(),
            s == chars@.skip(from as int),
            b == radix(base),
            all_digits(s.take(i - from), base),
            acc as int == digits_val(s.take(i - from), base),
        decreases n - i,
    {
        let c = chars[i];
        assert(s[i - from] == c);
        match digit_of(c, base) {
            None => {
                assert(!all_digits(s, base));
                return None;
            },
            Some(d) => {
                let ghost t = s.take(i + 1 - from);
                assert(t.drop_last() =~= s.take(i - from));
                assert(t.last() == c);
                assert(all_digits(t, base)) by {
                    assert(forall|k: int| 0 <= k < t.len() - 1 ==> t[k] == s.take(i - from)[k]);
                }
                if acc > (u32::MAX - d as u32) / b {
                    // the value read so far already overflows 32 bits
                    proof {
                        let m = u32::MAX as int;
                        assert(acc as int * b as int + d as int > m) by (nonlinear_arith)
                            requires
                                acc as int > (m - d as int) / b as int,
                                b as int >= 2,
                                0 <= d as int,
                                d < b,
                                m >= 0,
                        ;
                        assert(digits_val(t, base) > m);
                        if all_digits(s, base) {
                            lemma_digits_val_prefix_le(s, base, i + 1 - from);
                            assert(t =~= s.take(i + 1 - from));
                            assert(digits_val(s, base) > m);
                        }
                    }
                    return None;
                }
                proof {
                    let m = u32::MAX as int;
                    assert(acc as int * b as int + d as int <= m) by (nonlinear_arith)
                        requires
                            acc as int <= (m - d as int) / b as int,
                            b as int >= 2,
                            0 <= d as int,
                            d < b,
                            m >= 0,
                    ;
                }
                acc = acc * b + d as u32;
                proof {
                    assert(digits_val(t, base) == digits_val(t.drop_last(), base) * b + digit_val(c, base));
                }
            },
        }
        i += 1;
    }
    proof {
        assert(s.take(n - from) =~= s);
    }
    Some(acc)
}

/// Index of the first catalog entry whose name prefixes `chars`, if any.
fn find_match(chars: &Vec<char>, list: &Vec<DeviceInfo>) -> (r: Option<usize>)
    requires
        list@.len() == catalog().len(),
        forall|i: int| 0 <= i < list@.len() ==> (#[trigger] list@[i])@ == catalog()[i],
    ensures
        match r {
            Some(m) => match_index(chars@) == m as int && (m as int) < catalog().len()
                && is_prefix(catalog()[m as int].name, chars@),
            None => match_index(chars@) == -1,
        },
{
    let n = list.len();
    let mut i: usize = 0;
    while i < n
        invariant
            i <= n,
            n == catalog().len(),
            list@.len() == catalog().len(),
            forall|k: int| 0 <= k < list@.len() ==> (#[trigger] list@[k])@ == catalog()[k],
            match_index(chars@) == match_from(chars@, i as int),
        decreases n - i,
    {
        if has_prefix(chars, list[i].name) {
            return Some(i);
        }
        i += 1;
    }
    None
}

/// Resolves a device-address string such as "D1000" to its 4-byte wire form:
/// 3-byte little-endian address, then the device-type code.
pub fn to_device_code(device: &str) -> (r: Option<[u8; 4]>)
    ensures
        match r {
            Some(b) => resolve_spec(device@) == Some(b@),
            None => resolve_spec(device@) is None,
        },
{
    let chars = chars_of(device);
    let list = device_list();
    match find_match(&chars, &list) {
        None => None,
        Some(m) => {
            let e = &list[m];
            let name_len = e.name.unicode_len();
            match parse_digits(&chars, name_len, e.base) {
                None => None,
                Some(a) => {
                    let b = [
                        (a & 0xff) as u8,
                        ((a >> 8) & 0xff) as u8,
                        ((a >> 16) & 0xff) as u8,
                        e.code,
                    ];
                    proof {
                        assert(b@ =~= resolve_spec(device@)->Some_0);
                    }
                    Some(b)
                },
            }
        },
    }
}

/// The catalog entry a device string selects, without resolving its address.
pub fn get_device_info(device: &str) -> (r: Option<DeviceInfo>)
    ensures
        match r {
            Some(d) => match_index(device@) >= 0 && d@ == catalog()[match_index(device@)],
            None => match_index(device@) == -1,
        },
{
    let chars = chars_of(device);
    let list = device_list();
    match find_match(&chars, &list) {
        None => None,
        Some(m) => {
            let d = DeviceInfo {
                name: list[m].name,
                code: list[m].code,
                base: list[m].base,
                class: list[m].class,
                description: list[m].description,
            };
            Some(d)
        },
    }
}

/// The description the catalog gives a device string's class, in the shape
/// `description(BIT)` or `description(WORD)`.
pub open spec fn device_info_string_spec(e: DeviceEntry) -> Seq<char> {
    e.description + "("@ + (if e.class == DeviceType::BIT {
        "BIT"@
    } else {
        "WORD"@
    }) + ")"@
}

pub fn get_device_info_string(device: &str) -> (r: Option<String>)
    ensures
        match r {
            Some(s) => match_index(device@) >= 0
                && s@ == device_info_string_spec(catalog()[match_index(device@)]),
            None => match_index(device@) == -1,
        },
{
    match get_device_info(device) {
        None => None,
        Some(d) => {
            let mut s = String::from_str(d.description);
            s.append("(");
            s.append(d.class.to_string());
            s.append(")");
            Some(s)
        },
    }
}

} // verus!
