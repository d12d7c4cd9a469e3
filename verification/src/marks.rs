//! Characters that are alphabetic without being letters or numbers.
//!
//! Unicode's `Alphabetic` property takes in more than the letters (general
//! category `L`): letter numbers, which are numeric too; combining vowel
//! signs and combining letters, which are marks; and enclosed letters, which
//! are symbols. The marks and symbols among them are listed here, as of
//! Unicode 17.

use vstd::prelude::*;

verus! {

/// Latin to Arabic.
pub open spec fn early_mark(u: u32) -> bool {
    u == 0x345 || 0x363 <= u <= 0x36f || 0x5b0 <= u <= 0x5bd || u == 0x5bf || 0x5c1 <= u <= 0x5c2
        || 0x5c4 <= u <= 0x5c5 || u == 0x5c7 || 0x610 <= u <= 0x61a || 0x64b <= u <= 0x657
        || 0x659 <= u <= 0x65f || u == 0x670 || 0x6d6 <= u <= 0x6dc || 0x6e1 <= u <= 0x6e4
        || 0x6e7 <= u <= 0x6e8 || u == 0x6ed || u == 0x711 || 0x730 <= u <= 0x73f || 0x7a6 <= u <= 0x7b0
        || 0x816 <= u <= 0x817 || 0x81b <= u <= 0x823 || 0x825 <= u <= 0x827 || 0x829 <= u <= 0x82c
        || u == 0x897 || 0x8d4 <= u <= 0x8df || 0x8e3 <= u <= 0x8e9 || 0x8f0 <= u <= 0x8ff
}

/// Devanagari to Tamil.
pub open spec fn indic_mark(u: u32) -> bool {
    0x900 <= u <= 0x903 || 0x93a <= u <= 0x93b || 0x93e <= u <= 0x94c || 0x94e <= u <= 0x94f
        || 0x955 <= u <= 0x957 || 0x962 <= u <= 0x963 || 0x981 <= u <= 0x983 || 0x9be <= u <= 0x9c4
        || 0x9c7 <= u <= 0x9c8 || 0x9cb <= u <= 0x9cc || u == 0x9d7 || 0x9e2 <= u <= 0x9e3
        || 0xa01 <= u <= 0xa03 || 0xa3e <= u <= 0xa42 || 0xa47 <= u <= 0xa48 || 0xa4b <= u <= 0xa4c
        || u == 0xa51 || 0xa70 <= u <= 0xa71 || u == 0xa75 || 0xa81 <= u <= 0xa83 || 0xabe <= u <= 0xac5
        || 0xac7 <= u <= 0xac9 || 0xacb <= u <= 0xacc || 0xae2 <= u <= 0xae3 || 0xafa <= u <= 0xafc
        || 0xb01 <= u <= 0xb03 || 0xb3e <= u <= 0xb44 || 0xb47 <= u <= 0xb48 || 0xb4b <= u <= 0xb4c
        || 0xb56 <= u <= 0xb57 || 0xb62 <= u <= 0xb63 || u == 0xb82 || 0xbbe <= u <= 0xbc2
        || 0xbc6 <= u <= 0xbc8 || 0xbca <= u <= 0xbcc || u == 0xbd7
}

/// Telugu to Sinhala.
pub open spec fn southern_mark(u: u32) -> bool {
    0xc00 <= u <= 0xc04 || 0xc3e <= u <= 0xc44 || 0xc46 <= u <= 0xc48 || 0xc4a <= u <= 0xc4c
        || 0xc55 <= u <= 0xc56 || 0xc62 <= u <= 0xc63 || 0xc81 <= u <= 0xc83 || 0xcbe <= u <= 0xcc4
        || 0xcc6 <= u <= 0xcc8 || 0xcca <= u <= 0xccc || 0xcd5 <= u <= 0xcd6 || 0xce2 <= u <= 0xce3
        || u == 0xcf3 || 0xd00 <= u <= 0xd03 || 0xd3e <= u <= 0xd44 || 0xd46 <= u <= 0xd48
        || 0xd4a <= u <= 0xd4c || u == 0xd57 || 0xd62 <= u <= 0xd63 || 0xd81 <= u <= 0xd83
        || 0xdcf <= u <= 0xdd4 || u == 0xdd6 || 0xdd8 <= u <= 0xddf || 0xdf2 <= u <= 0xdf3
}

/// Thai to Tai Tham.
pub open spec fn eastern_mark(u: u32) -> bool {
    u == 0xe31 || 0xe34 <= u <= 0xe3a || u == 0xe4d || u == 0xeb1 || 0xeb4 <= u <= 0xeb9 || 0xebb <= u <= 0xebc
        || u == 0xecd || 0xf71 <= u <= 0xf83 || 0xf8d <= u <= 0xf97 || 0xf99 <= u <= 0xfbc
        || 0x102b <= u <= 0x1036 || u == 0x1038 || 0x103b <= u <= 0x103e || 0x1056 <= u <= 0x1059
        || 0x105e <= u <= 0x1060 || 0x1062 <= u <= 0x1064 || 0x1067 <= u <= 0x106d || 0x1071 <= u <= 0x1074
        || 0x1082 <= u <= 0x108d || u == 0x108f || 0x109a <= u <= 0x109d || 0x1712 <= u <= 0x1713
        || 0x1732 <= u <= 0x1733 || 0x1752 <= u <= 0x1753 || 0x1772 <= u <= 0x1773 || 0x17b6 <= u <= 0x17c8
        || 0x1885 <= u <= 0x1886 || u == 0x18a9 || 0x1920 <= u <= 0x192b || 0x1930 <= u <= 0x1938
        || 0x1a17 <= u <= 0x1a1b || 0x1a55 <= u <= 0x1a5e || 0x1a61 <= u <= 0x1a74 || 0x1abf <= u <= 0x1ac0
        || 0x1acc <= u <= 0x1ace
}

/// Balinese to Old Sogdian.
pub open spec fn island_mark(u: u32) -> bool {
    0x1b00 <= u <= 0x1b04 || 0x1b35 <= u <= 0x1b43 || 0x1b80 <= u <= 0x1b82 || 0x1ba1 <= u <= 0x1ba9
        || 0x1bac <= u <= 0x1bad || 0x1be7 <= u <= 0x1bf1 || 0x1c24 <= u <= 0x1c36 || 0x1dd3 <= u <= 0x1df4
        || 0x24b6 <= u <= 0x24e9 || 0x2de0 <= u <= 0x2dff || 0xa674 <= u <= 0xa67b || 0xa69e <= u <= 0xa69f
        || u == 0xa802 || u == 0xa80b || 0xa823 <= u <= 0xa827 || 0xa880 <= u <= 0xa881
        || 0xa8b4 <= u <= 0xa8c3 || u == 0xa8c5 || u == 0xa8ff || 0xa926 <= u <= 0xa92a
        || 0xa947 <= u <= 0xa952 || 0xa980 <= u <= 0xa983 || 0xa9b4 <= u <= 0xa9bf || u == 0xa9e5
        || 0xaa29 <= u <= 0xaa36 || u == 0xaa43 || 0xaa4c <= u <= 0xaa4d || 0xaa7b <= u <= 0xaa7d
        || u == 0xaab0 || 0xaab2 <= u <= 0xaab4 || 0xaab7 <= u <= 0xaab8 || u == 0xaabe
        || 0xaaeb <= u <= 0xaaef || u == 0xaaf5 || 0xabe3 <= u <= 0xabea || u == 0xfb1e
        || 0x10376 <= u <= 0x1037a || 0x10a01 <= u <= 0x10a03 || 0x10a05 <= u <= 0x10a06
        || 0x10a0c <= u <= 0x10a0f || 0x10d24 <= u <= 0x10d27 || u == 0x10d69 || 0x10eab <= u <= 0x10eac
        || 0x10efa <= u <= 0x10efc
}

/// Brahmi to Tulu-Tigalari.
pub open spec fn brahmi_mark(u: u32) -> bool {
    0x11000 <= u <= 0x11002 || 0x11038 <= u <= 0x11045 || 0x11073 <= u <= 0x11074 || 0x11080 <= u <= 0x11082
        || 0x110b0 <= u <= 0x110b8 || u == 0x110c2 || 0x11100 <= u <= 0x11102 || 0x11127 <= u <= 0x11132
        || 0x11145 <= u <= 0x11146 || 0x11180 <= u <= 0x11182 || 0x111b3 <= u <= 0x111bf
        || 0x111ce <= u <= 0x111cf || 0x1122c <= u <= 0x11234 || u == 0x11237 || u == 0x1123e || u == 0x11241
        || 0x112df <= u <= 0x112e8 || 0x11300 <= u <= 0x11303 || 0x1133e <= u <= 0x11344
        || 0x11347 <= u <= 0x11348 || 0x1134b <= u <= 0x1134c || u == 0x11357 || 0x11362 <= u <= 0x11363
        || 0x113b8 <= u <= 0x113c0 || u == 0x113c2 || u == 0x113c5 || 0x113c7 <= u <= 0x113ca
        || 0x113cc <= u <= 0x113cd
}

/// Newa onwards.
pub open spec fn later_mark(u: u32) -> bool {
    0x11435 <= u <= 0x11441 || 0x11443 <= u <= 0x11445 || 0x114b0 <= u <= 0x114c1 || 0x115af <= u <= 0x115b5
        || 0x115b8 <= u <= 0x115be || 0x115dc <= u <= 0x115dd || 0x11630 <= u <= 0x1163e || u == 0x11640
        || 0x116ab <= u <= 0x116b5 || 0x1171d <= u <= 0x1172a || 0x1182c <= u <= 0x11838
        || 0x11930 <= u <= 0x11935 || 0x11937 <= u <= 0x11938 || 0x1193b <= u <= 0x1193c || u == 0x11940
        || u == 0x11942 || 0x119d1 <= u <= 0x119d7 || 0x119da <= u <= 0x119df || u == 0x119e4
        || 0x11a01 <= u <= 0x11a0a || 0x11a35 <= u <= 0x11a39 || 0x11a3b <= u <= 0x11a3e
        || 0x11a51 <= u <= 0x11a5b || 0x11a8a <= u <= 0x11a97 || 0x11b60 <= u <= 0x11b67
        || 0x11c2f <= u <= 0x11c36 || 0x11c38 <= u <= 0x11c3e || 0x11c92 <= u <= 0x11ca7
        || 0x11ca9 <= u <= 0x11cb6 || 0x11d31 <= u <= 0x11d36 || u == 0x11d3a || 0x11d3c <= u <= 0x11d3d
        || 0x11d3f <= u <= 0x11d41 || u == 0x11d43 || u == 0x11d47 || 0x11d8a <= u <= 0x11d8e
        || 0x11d90 <= u <= 0x11d91 || 0x11d93 <= u <= 0x11d96 || 0x11ef3 <= u <= 0x11ef6
        || 0x11f00 <= u <= 0x11f01 || u == 0x11f03 || 0x11f34 <= u <= 0x11f3a || 0x11f3e <= u <= 0x11f40
        || 0x1611e <= u <= 0x1612e || u == 0x16f4f || 0x16f51 <= u <= 0x16f87 || 0x16f8f <= u <= 0x16f92
        || 0x16ff0 <= u <= 0x16ff1 || u == 0x1bc9e || 0x1e000 <= u <= 0x1e006 || 0x1e008 <= u <= 0x1e018
        || 0x1e01b <= u <= 0x1e021 || 0x1e023 <= u <= 0x1e024 || 0x1e026 <= u <= 0x1e02a || u == 0x1e08f
        || u == 0x1e6e3 || u == 0x1e6e6 || 0x1e6ee <= u <= 0x1e6ef || u == 0x1e6f5 || u == 0x1e947
        || 0x1f130 <= u <= 0x1f149 || 0x1f150 <= u <= 0x1f169 || 0x1f170 <= u <= 0x1f189
}

/// Whether `c` is alphabetic and neither a letter nor a number.
pub open spec fn is_mark(c: char) -> bool {
    let u = c as u32;
    if u < 0x900 {
        early_mark(u)
    } else if u < 0xc00 {
        indic_mark(u)
    } else if u < 0xe00 {
        southern_mark(u)
    } else if u < 0x1b00 {
        eastern_mark(u)
    } else if u < 0x11000 {
        island_mark(u)
    } else if u < 0x11400 {
        brahmi_mark(u)
    } else {
        later_mark(u)
    }
}

fn early(u: u32) -> (r: bool)
    ensures
        r == early_mark(u),
{
    u == 0x345 || (0x363 <= u && u <= 0x36f) || (0x5b0 <= u && u <= 0x5bd) || u == 0x5bf
        || (0x5c1 <= u && u <= 0x5c2) || (0x5c4 <= u && u <= 0x5c5) || u == 0x5c7 || (0x610 <= u && u <= 0x61a)
        || (0x64b <= u && u <= 0x657) || (0x659 <= u && u <= 0x65f) || u == 0x670 || (0x6d6 <= u && u <= 0x6dc)
        || (0x6e1 <= u && u <= 0x6e4) || (0x6e7 <= u && u <= 0x6e8) || u == 0x6ed || u == 0x711
        || (0x730 <= u && u <= 0x73f) || (0x7a6 <= u && u <= 0x7b0) || (0x816 <= u && u <= 0x817)
        || (0x81b <= u && u <= 0x823) || (0x825 <= u && u <= 0x827) || (0x829 <= u && u <= 0x82c) || u == 0x897
        || (0x8d4 <= u && u <= 0x8df) || (0x8e3 <= u && u <= 0x8e9) || (0x8f0 <= u && u <= 0x8ff)
}

fn indic(u: u32) -> (r: bool)
    ensures
        r == indic_mark(u),
{
    (0x900 <= u && u <= 0x903) || (0x93a <= u && u <= 0x93b) || (0x93e <= u && u <= 0x94c)
        || (0x94e <= u && u <= 0x94f) || (0x955 <= u && u <= 0x957) || (0x962 <= u && u <= 0x963)
        || (0x981 <= u && u <= 0x983) || (0x9be <= u && u <= 0x9c4) || (0x9c7 <= u && u <= 0x9c8)
        || (0x9cb <= u && u <= 0x9cc) || u == 0x9d7 || (0x9e2 <= u && u <= 0x9e3) || (0xa01 <= u && u <= 0xa03)
        || (0xa3e <= u && u <= 0xa42) || (0xa47 <= u && u <= 0xa48) || (0xa4b <= u && u <= 0xa4c) || u == 0xa51
        || (0xa70 <= u && u <= 0xa71) || u == 0xa75 || (0xa81 <= u && u <= 0xa83) || (0xabe <= u && u <= 0xac5)
        || (0xac7 <= u && u <= 0xac9) || (0xacb <= u && u <= 0xacc) || (0xae2 <= u && u <= 0xae3)
        || (0xafa <= u && u <= 0xafc) || (0xb01 <= u && u <= 0xb03) || (0xb3e <= u && u <= 0xb44)
        || (0xb47 <= u && u <= 0xb48) || (0xb4b <= u && u <= 0xb4c) || (0xb56 <= u && u <= 0xb57)
        || (0xb62 <= u && u <= 0xb63) || u == 0xb82 || (0xbbe <= u && u <= 0xbc2) || (0xbc6 <= u && u <= 0xbc8)
        || (0xbca <= u && u <= 0xbcc) || u == 0xbd7
}

fn southern(u: u32) -> (r: bool)
    ensures
        r == southern_mark(u),
{
    (0xc00 <= u && u <= 0xc04) || (0xc3e <= u && u <= 0xc44) || (0xc46 <= u && u <= 0xc48)
        || (0xc4a <= u && u <= 0xc4c) || (0xc55 <= u && u <= 0xc56) || (0xc62 <= u && u <= 0xc63)
        || (0xc81 <= u && u <= 0xc83) || (0xcbe <= u && u <= 0xcc4) || (0xcc6 <= u && u <= 0xcc8)
        || (0xcca <= u && u <= 0xccc) || (0xcd5 <= u && u <= 0xcd6) || (0xce2 <= u && u <= 0xce3) || u == 0xcf3
        || (0xd00 <= u && u <= 0xd03) || (0xd3e <= u && u <= 0xd44) || (0xd46 <= u && u <= 0xd48)
        || (0xd4a <= u && u <= 0xd4c) || u == 0xd57 || (0xd62 <= u && u <= 0xd63) || (0xd81 <= u && u <= 0xd83)
        || (0xdcf <= u && u <= 0xdd4) || u == 0xdd6 || (0xdd8 <= u && u <= 0xddf) || (0xdf2 <= u && u <= 0xdf3)
}

fn eastern(u: u32) -> (r: bool)
    ensures
        r == eastern_mark(u),
{
    u == 0xe31 || (0xe34 <= u && u <= 0xe3a) || u == 0xe4d || u == 0xeb1 || (0xeb4 <= u && u <= 0xeb9)
        || (0xebb <= u && u <= 0xebc) || u == 0xecd || (0xf71 <= u && u <= 0xf83) || (0xf8d <= u && u <= 0xf97)
        || (0xf99 <= u && u <= 0xfbc) || (0x102b <= u && u <= 0x1036) || u == 0x1038
        || (0x103b <= u && u <= 0x103e) || (0x1056 <= u && u <= 0x1059) || (0x105e <= u && u <= 0x1060)
        || (0x1062 <= u && u <= 0x1064) || (0x1067 <= u && u <= 0x106d) || (0x1071 <= u && u <= 0x1074)
        || (0x1082 <= u && u <= 0x108d) || u == 0x108f || (0x109a <= u && u <= 0x109d)
        || (0x1712 <= u && u <= 0x1713) || (0x1732 <= u && u <= 0x1733) || (0x1752 <= u && u <= 0x1753)
        || (0x1772 <= u && u <= 0x1773) || (0x17b6 <= u && u <= 0x17c8) || (0x1885 <= u && u <= 0x1886)
        || u == 0x18a9 || (0x1920 <= u && u <= 0x192b) || (0x1930 <= u && u <= 0x1938)
        || (0x1a17 <= u && u <= 0x1a1b) || (0x1a55 <= u && u <= 0x1a5e) || (0x1a61 <= u && u <= 0x1a74)
        || (0x1abf <= u && u <= 0x1ac0) || (0x1acc <= u && u <= 0x1ace)
}

fn island(u: u32) -> (r: bool)
    ensures
        r == island_mark(u),
{
    (0x1b00 <= u && u <= 0x1b04) || (0x1b35 <= u && u <= 0x1b43) || (0x1b80 <= u && u <= 0x1b82)
        || (0x1ba1 <= u && u <= 0x1ba9) || (0x1bac <= u && u <= 0x1bad) || (0x1be7 <= u && u <= 0x1bf1)
        || (0x1c24 <= u && u <= 0x1c36) || (0x1dd3 <= u && u <= 0x1df4) || (0x24b6 <= u && u <= 0x24e9)
        || (0x2de0 <= u && u <= 0x2dff) || (0xa674 <= u && u <= 0xa67b) || (0xa69e <= u && u <= 0xa69f)
        || u == 0xa802 || u == 0xa80b || (0xa823 <= u && u <= 0xa827) || (0xa880 <= u && u <= 0xa881)
        || (0xa8b4 <= u && u <= 0xa8c3) || u == 0xa8c5 || u == 0xa8ff || (0xa926 <= u && u <= 0xa92a)
        || (0xa947 <= u && u <= 0xa952) || (0xa980 <= u && u <= 0xa983) || (0xa9b4 <= u && u <= 0xa9bf)
        || u == 0xa9e5 || (0xaa29 <= u && u <= 0xaa36) || u == 0xaa43 || (0xaa4c <= u && u <= 0xaa4d)
        || (0xaa7b <= u && u <= 0xaa7d) || u == 0xaab0 || (0xaab2 <= u && u <= 0xaab4)
        || (0xaab7 <= u && u <= 0xaab8) || u == 0xaabe || (0xaaeb <= u && u <= 0xaaef) || u == 0xaaf5
        || (0xabe3 <= u && u <= 0xabea) || u == 0xfb1e || (0x10376 <= u && u <= 0x1037a)
        || (0x10a01 <= u && u <= 0x10a03) || (0x10a05 <= u && u <= 0x10a06) || (0x10a0c <= u && u <= 0x10a0f)
        || (0x10d24 <= u && u <= 0x10d27) || u == 0x10d69 || (0x10eab <= u && u <= 0x10eac)
        || (0x10efa <= u && u <= 0x10efc)
}

fn brahmi(u: u32) -> (r: bool)
    ensures
        r == brahmi_mark(u),
{
    (0x11000 <= u && u <= 0x11002) || (0x11038 <= u && u <= 0x11045) || (0x11073 <= u && u <= 0x11074)
        || (0x11080 <= u && u <= 0x11082) || (0x110b0 <= u && u <= 0x110b8) || u == 0x110c2
        || (0x11100 <= u && u <= 0x11102) || (0x11127 <= u && u <= 0x11132) || (0x11145 <= u && u <= 0x11146)
        || (0x11180 <= u && u <= 0x11182) || (0x111b3 <= u && u <= 0x111bf) || (0x111ce <= u && u <= 0x111cf)
        || (0x1122c <= u && u <= 0x11234) || u == 0x11237 || u == 0x1123e || u == 0x11241
        || (0x112df <= u && u <= 0x112e8) || (0x11300 <= u && u <= 0x11303) || (0x1133e <= u && u <= 0x11344)
        || (0x11347 <= u && u <= 0x11348) || (0x1134b <= u && u <= 0x1134c) || u == 0x11357
        || (0x11362 <= u && u <= 0x11363) || (0x113b8 <= u && u <= 0x113c0) || u == 0x113c2 || u == 0x113c5
        || (0x113c7 <= u && u <= 0x113ca) || (0x113cc <= u && u <= 0x113cd)
}

fn later(u: u32) -> (r: bool)
    ensures
        r == later_mark(u),
{
    (0x11435 <= u && u <= 0x11441) || (0x11443 <= u && u <= 0x11445) || (0x114b0 <= u && u <= 0x114c1)
        || (0x115af <= u && u <= 0x115b5) || (0x115b8 <= u && u <= 0x115be) || (0x115dc <= u && u <= 0x115dd)
        || (0x11630 <= u && u <= 0x1163e) || u == 0x11640 || (0x116ab <= u && u <= 0x116b5)
        || (0x1171d <= u && u <= 0x1172a) || (0x1182c <= u && u <= 0x11838) || (0x11930 <= u && u <= 0x11935)
        || (0x11937 <= u && u <= 0x11938) || (0x1193b <= u && u <= 0x1193c) || u == 0x11940 || u == 0x11942
        || (0x119d1 <= u && u <= 0x119d7) || (0x119da <= u && u <= 0x119df) || u == 0x119e4
        || (0x11a01 <= u && u <= 0x11a0a) || (0x11a35 <= u && u <= 0x11a39) || (0x11a3b <= u && u <= 0x11a3e)
        || (0x11a51 <= u && u <= 0x11a5b) || (0x11a8a <= u && u <= 0x11a97) || (0x11b60 <= u && u <= 0x11b67)
        || (0x11c2f <= u && u <= 0x11c36) || (0x11c38 <= u && u <= 0x11c3e) || (0x11c92 <= u && u <= 0x11ca7)
        || (0x11ca9 <= u && u <= 0x11cb6) || (0x11d31 <= u && u <= 0x11d36) || u == 0x11d3a
        || (0x11d3c <= u && u <= 0x11d3d) || (0x11d3f <= u && u <= 0x11d41) || u == 0x11d43 || u == 0x11d47
        || (0x11d8a <= u && u <= 0x11d8e) || (0x11d90 <= u && u <= 0x11d91) || (0x11d93 <= u && u <= 0x11d96)
        || (0x11ef3 <= u && u <= 0x11ef6) || (0x11f00 <= u && u <= 0x11f01) || u == 0x11f03
        || (0x11f34 <= u && u <= 0x11f3a) || (0x11f3e <= u && u <= 0x11f40) || (0x1611e <= u && u <= 0x1612e)
        || u == 0x16f4f || (0x16f51 <= u && u <= 0x16f87) || (0x16f8f <= u && u <= 0x16f92)
        || (0x16ff0 <= u && u <= 0x16ff1) || u == 0x1bc9e || (0x1e000 <= u && u <= 0x1e006)
        || (0x1e008 <= u && u <= 0x1e018) || (0x1e01b <= u && u <= 0x1e021) || (0x1e023 <= u && u <= 0x1e024)
        || (0x1e026 <= u && u <= 0x1e02a) || u == 0x1e08f || u == 0x1e6e3 || u == 0x1e6e6
        || (0x1e6ee <= u && u <= 0x1e6ef) || u == 0x1e6f5 || u == 0x1e947 || (0x1f130 <= u && u <= 0x1f149)
        || (0x1f150 <= u && u <= 0x1f169) || (0x1f170 <= u && u <= 0x1f189)
}

/// Whether `c` is alphabetic and neither a letter nor a number.
pub fn mark(c: char) -> (r: bool)
    ensures
        r == is_mark(c),
{
    let u: u32 = c as u32;
    if u < 0x900 {
        early(u)
    } else if u < 0xc00 {
        indic(u)
    } else if u < 0xe00 {
        southern(u)
    } else if u < 0x1b00 {
        eastern(u)
    } else if u < 0x11000 {
        island(u)
    } else if u < 0x11400 {
        brahmi(u)
    } else {
        later(u)
    }
}

} // verus!
