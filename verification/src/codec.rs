use vstd::prelude::*;

use crate::errors::VaultError;
use crate::model::{group_views, lemma_group_views_push, lemma_record_views_push, record_views, GroupView, InputSymbol, PasswordDataView, RecordView};
use vstd::utf8::{
    decode_first_scalar, encode_scalar, is_scalar, length_of_first_scalar, valid_first_scalar,
};

verus! {

// ---------------------------------------------------------------------------
// The on-disk document is UTF-8 JSON of the shape
//   {"groups":[{"id":u32,"pid":u32,"name":string},...],
//    "records":[{"id":u32,"pid":u32,"name":string,"login":string,
//                "password":string,"url":string,"loginSymbol":sym,
//                "passwordSymbol":sym,"urlSymbol":sym},...]}
// with sym one of "TAB"|"ENTER"|"SPACE"|"NONE".  The writer emits the
// canonical compact form below; the reader accepts exactly the same
// field order, with the usual JSON string escapes and raw UTF-8.
// ---------------------------------------------------------------------------
/// The lower-case hex digit for a value below 16.
pub open spec fn hex_lower(d: u32) -> u8 {
    if d < 10 {
        (48 + d) as u8
    } else {
        (87 + d) as u8
    }
}

/// The bytes a single character contributes inside a JSON string:
/// `"` and `\` are escaped, control characters become `\u00XX`, and
/// everything else is its UTF-8 encoding.
pub open spec fn esc_char(c: char) -> Seq<u8> {
    if c == '"' {
        seq![92u8, 34u8]
    } else if c == '\\' {
        seq![92u8, 92u8]
    } else if (c as u32) < 32 {
        seq![92u8, 117u8, 48u8, 48u8, hex_lower((c as u32) / 16), hex_lower((c as u32) % 16)]
    } else {
        encode_scalar(c as u32)
    }
}

pub open spec fn ser_chars(s: Seq<char>) -> Seq<u8>
    decreases s.len(),
{
    if s.len() == 0 {
        Seq::empty()
    } else {
        ser_chars(s.drop_last()) + esc_char(s.last())
    }
}

/// A JSON string literal: quote, escaped characters, quote.
pub open spec fn ser_string(s: Seq<char>) -> Seq<u8> {
    seq![34u8] + ser_chars(s) + seq![34u8]
}

/// The shortest decimal form of a number.
pub open spec fn ser_u32(n: u32) -> Seq<u8>
    decreases n,
{
    if n < 10 {
        seq![(48 + n) as u8]
    } else {
        ser_u32(n / 10) + seq![(48 + n % 10) as u8]
    }
}

/// The uppercase name of an input symbol: TAB, ENTER, SPACE or NONE.
pub open spec fn symbol_chars(s: InputSymbol) -> Seq<u8> {
    match s {
        InputSymbol::Tab => seq![84u8, 65u8, 66u8],
        InputSymbol::Enter => seq![69u8, 78u8, 84u8, 69u8, 82u8],
        InputSymbol::Space => seq![83u8, 80u8, 65u8, 67u8, 69u8],
        InputSymbol::NoSymbol => seq![78u8, 79u8, 78u8, 69u8],
    }
}

pub open spec fn ser_symbol(s: InputSymbol) -> Seq<u8> {
    seq![34u8] + symbol_chars(s) + seq![34u8]
}

/// The bytes of `{"groups":[`.
pub open spec fn lit_groups_head() -> Seq<u8> {
    seq![123u8, 34u8, 103u8, 114u8, 111u8, 117u8, 112u8, 115u8, 34u8, 58u8, 91u8]
}

/// The bytes of `,"records":[`.
pub open spec fn lit_records_key() -> Seq<u8> {
    seq![44u8, 34u8, 114u8, 101u8, 99u8, 111u8, 114u8, 100u8, 115u8, 34u8, 58u8, 91u8]
}

/// The bytes of `{"id":`.
pub open spec fn lit_id_key() -> Seq<u8> {
    seq![123u8, 34u8, 105u8, 100u8, 34u8, 58u8]
}

/// The bytes of `,"pid":`.
pub open spec fn lit_pid_key() -> Seq<u8> {
    seq![44u8, 34u8, 112u8, 105u8, 100u8, 34u8, 58u8]
}

/// The bytes of `,"name":`.
pub open spec fn lit_name_key() -> Seq<u8> {
    seq![44u8, 34u8, 110u8, 97u8, 109u8, 101u8, 34u8, 58u8]
}

/// The bytes of `,"login":`.
pub open spec fn lit_login_key() -> Seq<u8> {
    seq![44u8, 34u8, 108u8, 111u8, 103u8, 105u8, 110u8, 34u8, 58u8]
}

/// The bytes of `,"password":`.
pub open spec fn lit_password_key() -> Seq<u8> {
    seq![44u8, 34u8, 112u8, 97u8, 115u8, 115u8, 119u8, 111u8, 114u8, 100u8, 34u8, 58u8]
}

/// The bytes of `,"url":`.
pub open spec fn lit_url_key() -> Seq<u8> {
    seq![44u8, 34u8, 117u8, 114u8, 108u8, 34u8, 58u8]
}

/// The bytes of `,"loginSymbol":`.
pub open spec fn lit_login_symbol_key() -> Seq<u8> {
    seq![
        44u8,
        34u8,
        108u8,
        111u8,
        103u8,
        105u8,
        110u8,
        83u8,
        121u8,
        109u8,
        98u8,
        111u8,
        108u8,
        34u8,
        58u8,
    ]
}

/// The bytes of `,"passwordSymbol":`.
pub open spec fn lit_password_symbol_key() -> Seq<u8> {
    seq![
        44u8,
        34u8,
        112u8,
        97u8,
        115u8,
        115u8,
        119u8,
        111u8,
        114u8,
        100u8,
        83u8,
        121u8,
        109u8,
        98u8,
        111u8,
        108u8,
        34u8,
        58u8,
    ]
}

/// The bytes of `,"urlSymbol":`.
pub open spec fn lit_url_symbol_key() -> Seq<u8> {
    seq![44u8, 34u8, 117u8, 114u8, 108u8, 83u8, 121u8, 109u8, 98u8, 111u8, 108u8, 34u8, 58u8]
}

pub open spec fn ser_group(g: GroupView) -> Seq<u8> {
    lit_id_key() + ser_u32(g.id) + lit_pid_key() + ser_u32(g.pid) + lit_name_key() + ser_string(
        g.name,
    ) + seq![125u8]
}

pub open spec fn ser_record(r: RecordView) -> Seq<u8> {
    lit_id_key() + ser_u32(r.id) + lit_pid_key() + ser_u32(r.pid) + lit_name_key() + ser_string(
        r.name,
    ) + lit_login_key() + ser_string(r.login) + lit_password_key() + ser_string(r.password)
        + lit_url_key() + ser_string(r.url) + lit_login_symbol_key() + ser_symbol(r.login_symbol)
        + lit_password_symbol_key() + ser_symbol(r.password_symbol) + lit_url_symbol_key()
        + ser_symbol(r.url_symbol) + seq![125u8]
}

pub open spec fn ser_groups(gs: Seq<GroupView>) -> Seq<u8>
    decreases gs.len(),
{
    if gs.len() == 0 {
        Seq::empty()
    } else if gs.len() == 1 {
        ser_group(gs[0])
    } else {
        ser_groups(gs.drop_last()) + seq![44u8] + ser_group(gs.last())
    }
}

pub open spec fn ser_records(rs: Seq<RecordView>) -> Seq<u8>
    decreases rs.len(),
{
    if rs.len() == 0 {
        Seq::empty()
    } else if rs.len() == 1 {
        ser_record(rs[0])
    } else {
        ser_records(rs.drop_last()) + seq![44u8] + ser_record(rs.last())
    }
}

/// The canonical byte serialization of a whole vault.
pub open spec fn ser_vault(v: PasswordDataView) -> Seq<u8> {
    lit_groups_head() + ser_groups(v.groups) + seq![93u8] + lit_records_key() + ser_records(
        v.records,
    ) + seq![93u8, 125u8]
}

// ---------------------------------------------------------------------------
// Parsing: a recursive-descent grammar over the byte sequence.  Every
// function takes the whole input and a position and yields the parsed
// value and the position one past it, or nothing when the input does
// not match.
// ---------------------------------------------------------------------------
pub open spec fn p_match(s: Seq<u8>, i: int, pat: Seq<u8>) -> Option<int> {
    if 0 <= i && i + pat.len() <= s.len() && s.subrange(i, i + pat.len() as int) == pat {
        Some(i + pat.len() as int)
    } else {
        None
    }
}

pub open spec fn p_digits(s: Seq<u8>, i: int, acc: u32) -> Option<(u32, int)>
    decreases s.len() - i,
    when 0 <= i <= s.len()
{
    if i < s.len() && 48 <= s[i] <= 57 {
        let d = (s[i] - 48) as u32;
        if acc > 429496729 || (acc == 429496729 && d > 5) {
            None
        } else {
            p_digits(s, i + 1, (10 * acc + d) as u32)
        }
    } else {
        Some((acc, i))
    }
}

/// A decimal number fitting u32 (at least one digit, overflow refused).
pub open spec fn p_u32(s: Seq<u8>, i: int) -> Option<(u32, int)> {
    if 0 <= i && i < s.len() && 48 <= s[i] <= 57 {
        p_digits(s, i, 0)
    } else {
        None
    }
}

pub open spec fn hex_val(b: u8) -> Option<u32> {
    if 48 <= b <= 57 {
        Some((b - 48) as u32)
    } else if 97 <= b <= 102 {
        Some((b - 87) as u32)
    } else if 65 <= b <= 70 {
        Some((b - 55) as u32)
    } else {
        None
    }
}

/// The characters of a JSON string body, starting after the opening
/// quote and ending at the closing quote.  Accepts the short escapes,
/// `\uXXXX` outside the surrogate range, raw printable ASCII, and raw
/// multi-byte UTF-8.
pub open spec fn p_chars(s: Seq<u8>, i: int, acc: Seq<char>) -> Option<(Seq<char>, int)>
    decreases s.len() - i,
    when 0 <= i <= s.len()
{
    if i >= s.len() {
        None
    } else {
        let b = s[i];
        if b == 34 {
            Some((acc, i + 1))
        } else if b == 92 {
            if i + 1 >= s.len() {
                None
            } else {
                let e = s[i + 1];
                if e == 34 {
                    p_chars(s, i + 2, acc.push('"'))
                } else if e == 92 {
                    p_chars(s, i + 2, acc.push('\\'))
                } else if e == 47 {
                    p_chars(s, i + 2, acc.push('/'))
                } else if e == 98 {
                    p_chars(s, i + 2, acc.push('\u{0008}'))
                } else if e == 102 {
                    p_chars(s, i + 2, acc.push('\u{000C}'))
                } else if e == 110 {
                    p_chars(s, i + 2, acc.push('\n'))
                } else if e == 114 {
                    p_chars(s, i + 2, acc.push('\r'))
                } else if e == 116 {
                    p_chars(s, i + 2, acc.push('\t'))
                } else if e == 117 {
                    if i + 6 > s.len() {
                        None
                    } else if hex_val(s[i + 2]) is Some && hex_val(s[i + 3]) is Some && hex_val(
                        s[i + 4],
                    ) is Some && hex_val(s[i + 5]) is Some {
                        let cp = ((hex_val(s[i + 2]).unwrap() * 4096 + hex_val(s[i + 3]).unwrap()
                            * 256 + hex_val(s[i + 4]).unwrap() * 16 + hex_val(
                            s[i + 5],
                        ).unwrap()) as u32);
                        if 0xD800 <= cp <= 0xDFFF {
                            None
                        } else {
                            p_chars(s, i + 6, acc.push(cp as char))
                        }
                    } else {
                        None
                    }
                } else {
                    None
                }
            }
        } else if b < 32 {
            None
        } else if b < 128 {
            p_chars(s, i + 1, acc.push(b as char))
        } else {
            let rest = s.subrange(i, s.len() as int);
            if valid_first_scalar(rest) {
                p_chars(s, i + length_of_first_scalar(rest), acc.push(
                    decode_first_scalar(rest) as char,
                ))
            } else {
                None
            }
        }
    }
}

pub open spec fn p_string(s: Seq<u8>, i: int) -> Option<(Seq<char>, int)> {
    if 0 <= i && i < s.len() && s[i] == 34 {
        p_chars(s, i + 1, Seq::empty())
    } else {
        None
    }
}

pub open spec fn p_symbol(s: Seq<u8>, i: int) -> Option<(InputSymbol, int)> {
    if p_match(s, i, ser_symbol(InputSymbol::Tab)) is Some {
        Some((InputSymbol::Tab, p_match(s, i, ser_symbol(InputSymbol::Tab)).unwrap()))
    } else if p_match(s, i, ser_symbol(InputSymbol::Enter)) is Some {
        Some((InputSymbol::Enter, p_match(s, i, ser_symbol(InputSymbol::Enter)).unwrap()))
    } else if p_match(s, i, ser_symbol(InputSymbol::Space)) is Some {
        Some((InputSymbol::Space, p_match(s, i, ser_symbol(InputSymbol::Space)).unwrap()))
    } else if p_match(s, i, ser_symbol(InputSymbol::NoSymbol)) is Some {
        Some((InputSymbol::NoSymbol, p_match(s, i, ser_symbol(InputSymbol::NoSymbol)).unwrap()))
    } else {
        None
    }
}

pub open spec fn p_group(s: Seq<u8>, i: int) -> Option<(GroupView, int)> {
    match p_match(s, i, lit_id_key()) {
        None => None,
        Some(i1) => match p_u32(s, i1) {
            None => None,
            Some((id, i2)) => match p_match(s, i2, lit_pid_key()) {
                None => None,
                Some(i3) => match p_u32(s, i3) {
                    None => None,
                    Some((pid, i4)) => match p_match(s, i4, lit_name_key()) {
                        None => None,
                        Some(i5) => match p_string(s, i5) {
                            None => None,
                            Some((name, i6)) => match p_match(s, i6, seq![125u8]) {
                                None => None,
                                Some(i7) => Some((GroupView { id, pid, name }, i7)),
                            },
                        },
                    },
                },
            },
        },
    }
}

pub open spec fn p_record(s: Seq<u8>, i: int) -> Option<(RecordView, int)> {
    match p_match(s, i, lit_id_key()) {
        None => None,
        Some(i1) => match p_u32(s, i1) {
            None => None,
            Some((id, i2)) => match p_match(s, i2, lit_pid_key()) {
                None => None,
                Some(i3) => match p_u32(s, i3) {
                    None => None,
                    Some((pid, i4)) => match p_match(s, i4, lit_name_key()) {
                        None => None,
                        Some(i5) => match p_string(s, i5) {
                            None => None,
                            Some((name, i6)) => match p_match(s, i6, lit_login_key()) {
                                None => None,
                                Some(i7) => match p_string(s, i7) {
                                    None => None,
                                    Some((login, i8)) => match p_match(
                                        s,
                                        i8,
                                        lit_password_key(),
                                    ) {
                                        None => None,
                                        Some(i9) => match p_string(s, i9) {
                                            None => None,
                                            Some((password, i10)) => match p_match(
                                                s,
                                                i10,
                                                lit_url_key(),
                                            ) {
                                                None => None,
                                                Some(i11) => match p_string(s, i11) {
                                                    None => None,
                                                    Some((url, i12)) => p_record_tail(
                                                        s,
                                                        i12,
                                                        id,
                                                        pid,
                                                        name,
                                                        login,
                                                        password,
                                                        url,
                                                    ),
                                                },
                                            },
                                        },
                                    },
                                },
                            },
                        },
                    },
                },
            },
        },
    }
}

pub open spec fn p_record_tail(
    s: Seq<u8>,
    i: int,
    id: u32,
    pid: u32,
    name: Seq<char>,
    login: Seq<char>,
    password: Seq<char>,
    url: Seq<char>,
) -> Option<(RecordView, int)> {
    match p_match(s, i, lit_login_symbol_key()) {
        None => None,
        Some(i1) => match p_symbol(s, i1) {
            None => None,
            Some((login_symbol, i2)) => match p_match(s, i2, lit_password_symbol_key()) {
                None => None,
                Some(i3) => match p_symbol(s, i3) {
                    None => None,
                    Some((password_symbol, i4)) => match p_match(s, i4, lit_url_symbol_key()) {
                        None => None,
                        Some(i5) => match p_symbol(s, i5) {
                            None => None,
                            Some((url_symbol, i6)) => match p_match(s, i6, seq![125u8]) {
                                None => None,
                                Some(i7) => Some(
                                    (
                                        RecordView {
                                            id,
                                            pid,
                                            name,
                                            login,
                                            password,
                                            url,
                                            login_symbol,
                                            password_symbol,
                                            url_symbol,
                                        },
                                        i7,
                                    ),
                                ),
                            },
                        },
                    },
                },
            },
        },
    }
}

pub proof fn lemma_p_digits_bounds(s: Seq<u8>, i: int, acc: u32)
    requires
        0 <= i <= s.len(),
    ensures
        p_digits(s, i, acc) matches Some(r) ==> i <= r.1 <= s.len(),
    decreases s.len() - i,
{
    if i < s.len() && 48 <= s[i] <= 57 {
        let d = (s[i] - 48) as u32;
        if !(acc > 429496729 || (acc == 429496729 && d > 5)) {
            lemma_p_digits_bounds(s, i + 1, (10 * acc + d) as u32);
        }
    }
}

pub proof fn lemma_p_chars_bounds(s: Seq<u8>, i: int, acc: Seq<char>)
    requires
        0 <= i <= s.len(),
    ensures
        p_chars(s, i, acc) matches Some(r) ==> i < r.1 <= s.len(),
    decreases s.len() - i,
{
    if i < s.len() {
        let b = s[i];
        if b == 34 {
        } else if b == 92 {
            if i + 1 < s.len() {
                let e = s[i + 1];
                if e == 34 {
                    lemma_p_chars_bounds(s, i + 2, acc.push('"'));
                } else if e == 92 {
                    lemma_p_chars_bounds(s, i + 2, acc.push('\\'));
                } else if e == 47 {
                    lemma_p_chars_bounds(s, i + 2, acc.push('/'));
                } else if e == 98 {
                    lemma_p_chars_bounds(s, i + 2, acc.push('\u{0008}'));
                } else if e == 102 {
                    lemma_p_chars_bounds(s, i + 2, acc.push('\u{000C}'));
                } else if e == 110 {
                    lemma_p_chars_bounds(s, i + 2, acc.push('\n'));
                } else if e == 114 {
                    lemma_p_chars_bounds(s, i + 2, acc.push('\r'));
                } else if e == 116 {
                    lemma_p_chars_bounds(s, i + 2, acc.push('\t'));
                } else if e == 117 {
                    if i + 6 <= s.len() && hex_val(s[i + 2]) is Some && hex_val(s[i + 3]) is Some
                        && hex_val(s[i + 4]) is Some && hex_val(s[i + 5]) is Some {
                        let cp = ((hex_val(s[i + 2]).unwrap() * 4096 + hex_val(s[i + 3]).unwrap()
                            * 256 + hex_val(s[i + 4]).unwrap() * 16 + hex_val(
                            s[i + 5],
                        ).unwrap()) as u32);
                        if !(0xD800 <= cp <= 0xDFFF) {
                            lemma_p_chars_bounds(s, i + 6, acc.push(cp as char));
                        }
                    }
                }
            }
        } else if b < 32 {
        } else if b < 128 {
            lemma_p_chars_bounds(s, i + 1, acc.push(b as char));
        } else {
            let rest = s.subrange(i, s.len() as int);
            if valid_first_scalar(rest) {
                lemma_p_chars_bounds(s, i + length_of_first_scalar(rest), acc.push(
                    decode_first_scalar(rest) as char,
                ));
            }
        }
    }
}

pub proof fn lemma_p_group_bounds(s: Seq<u8>, i: int)
    requires
        0 <= i <= s.len(),
    ensures
        p_group(s, i) matches Some(r) ==> i < r.1 <= s.len(),
{
    if p_match(s, i, lit_id_key()) is Some {
        let i1 = p_match(s, i, lit_id_key()).unwrap();
        if p_u32(s, i1) is Some {
            lemma_p_digits_bounds(s, i1, 0);
            let i2 = p_u32(s, i1).unwrap().1;
            if p_match(s, i2, lit_pid_key()) is Some {
                let i3 = p_match(s, i2, lit_pid_key()).unwrap();
                if p_u32(s, i3) is Some {
                    lemma_p_digits_bounds(s, i3, 0);
                    let i4 = p_u32(s, i3).unwrap().1;
                    if p_match(s, i4, lit_name_key()) is Some {
                        let i5 = p_match(s, i4, lit_name_key()).unwrap();
                        if p_string(s, i5) is Some {
                            lemma_p_chars_bounds(s, i5 + 1, Seq::empty());
                        }
                    }
                }
            }
        }
    }
}

#[verifier::rlimit(60)]
pub proof fn lemma_p_record_bounds(s: Seq<u8>, i: int)
    requires
        0 <= i <= s.len(),
    ensures
        p_record(s, i) matches Some(r) ==> i < r.1 <= s.len(),
{
    if p_match(s, i, lit_id_key()) is Some {
        let i1 = p_match(s, i, lit_id_key()).unwrap();
        if p_u32(s, i1) is Some {
            lemma_p_digits_bounds(s, i1, 0);
            let i2 = p_u32(s, i1).unwrap().1;
            if p_match(s, i2, lit_pid_key()) is Some {
                let i3 = p_match(s, i2, lit_pid_key()).unwrap();
                if p_u32(s, i3) is Some {
                    lemma_p_digits_bounds(s, i3, 0);
                    let i4 = p_u32(s, i3).unwrap().1;
                    if p_match(s, i4, lit_name_key()) is Some {
                        let i5 = p_match(s, i4, lit_name_key()).unwrap();
                        if p_string(s, i5) is Some {
                            lemma_p_chars_bounds(s, i5 + 1, Seq::empty());
                            let i6 = p_string(s, i5).unwrap().1;
                            if p_match(s, i6, lit_login_key()) is Some {
                                let i7 = p_match(s, i6, lit_login_key()).unwrap();
                                if p_string(s, i7) is Some {
                                    lemma_p_chars_bounds(s, i7 + 1, Seq::empty());
                                    let i8 = p_string(s, i7).unwrap().1;
                                    if p_match(s, i8, lit_password_key()) is Some {
                                        let i9 = p_match(s, i8, lit_password_key()).unwrap();
                                        if p_string(s, i9) is Some {
                                            lemma_p_chars_bounds(s, i9 + 1, Seq::empty());
                                            let i10 = p_string(s, i9).unwrap().1;
                                            if p_match(s, i10, lit_url_key()) is Some {
                                                let i11 = p_match(s, i10, lit_url_key()).unwrap();
                                                if p_string(s, i11) is Some {
                                                    lemma_p_chars_bounds(s, i11 + 1, Seq::empty());
                                                }
                                            }
                                        }
                                    }
                                }
                            }
                        }
                    }
                }
            }
        }
    }
}

pub open spec fn p_groups_rest(s: Seq<u8>, i: int, acc: Seq<GroupView>) -> Option<
    (Seq<GroupView>, int),
>
    decreases s.len() - i,
    when 0 <= i <= s.len()
    via p_groups_rest_decreases
{
    match p_group(s, i) {
        None => None,
        Some((g, j)) => if j < s.len() && s[j] == 44 {
            p_groups_rest(s, j + 1, acc.push(g))
        } else if j < s.len() && s[j] == 93 {
            Some((acc.push(g), j + 1))
        } else {
            None
        },
    }
}

#[via_fn]
proof fn p_groups_rest_decreases(s: Seq<u8>, i: int, acc: Seq<GroupView>) {
    lemma_p_group_bounds(s, i);
}

pub open spec fn p_records_rest(s: Seq<u8>, i: int, acc: Seq<RecordView>) -> Option<
    (Seq<RecordView>, int),
>
    decreases s.len() - i,
    when 0 <= i <= s.len()
    via p_records_rest_decreases
{
    match p_record(s, i) {
        None => None,
        Some((r, j)) => if j < s.len() && s[j] == 44 {
            p_records_rest(s, j + 1, acc.push(r))
        } else if j < s.len() && s[j] == 93 {
            Some((acc.push(r), j + 1))
        } else {
            None
        },
    }
}

#[via_fn]
proof fn p_records_rest_decreases(s: Seq<u8>, i: int, acc: Seq<RecordView>) {
    lemma_p_record_bounds(s, i);
}

/// A group array body (after `[`), including the closing `]`.
pub open spec fn p_groups(s: Seq<u8>, i: int) -> Option<(Seq<GroupView>, int)> {
    if 0 <= i && i < s.len() && s[i] == 93 {
        Some((Seq::empty(), i + 1))
    } else if 0 <= i <= s.len() {
        p_groups_rest(s, i, Seq::empty())
    } else {
        None
    }
}

/// A record array body (after `[`), including the closing `]`.
pub open spec fn p_records(s: Seq<u8>, i: int) -> Option<(Seq<RecordView>, int)> {
    if 0 <= i && i < s.len() && s[i] == 93 {
        Some((Seq::empty(), i + 1))
    } else if 0 <= i <= s.len() {
        p_records_rest(s, i, Seq::empty())
    } else {
        None
    }
}

/// The whole document: groups array, records array, nothing after the
/// final brace.
pub open spec fn p_doc(s: Seq<u8>) -> Option<PasswordDataView> {
    match p_match(s, 0, lit_groups_head()) {
        None => None,
        Some(i1) => match p_groups(s, i1) {
            None => None,
            Some((gs, i2)) => match p_match(s, i2, lit_records_key()) {
                None => None,
                Some(i3) => match p_records(s, i3) {
                    None => None,
                    Some((rs, i4)) => match p_match(s, i4, seq![125u8]) {
                        None => None,
                        Some(i5) => if i5 == s.len() {
                            Some(PasswordDataView { groups: gs, records: rs })
                        } else {
                            None
                        },
                    },
                },
            },
        },
    }
}


// ---------------------------------------------------------------------------
// The verified writer.
// ---------------------------------------------------------------------------
fn hex_lower_exec(d: u32) -> (r: u8)
    requires
        d < 16,
    ensures
        r == hex_lower(d),
{
    if d < 10 {
        (48 + d) as u8
    } else {
        (87 + d) as u8
    }
}

fn emit_all(out: &mut Vec<u8>, pat: &Vec<u8>)
    ensures
        final(out)@ == old(out)@ + pat@,
{
    let mut k: usize = 0;
    while k < pat.len()
        invariant
            k <= pat.len(),
            out@ == old(out)@ + pat@.take(k as int),
        decreases pat.len() - k,
    {
        out.push(pat[k]);
        proof {
            assert(old(out)@ + pat@.take(k + 1) =~= (old(out)@ + pat@.take(k as int)).push(
                pat@[k as int],
            ));
        }
        k += 1;
    }
    proof {
        assert(old(out)@ + pat@.take(pat.len() as int) =~= old(out)@ + pat@);
    }
}

fn lit_groups_head_vec() -> (r: Vec<u8>)
    ensures
        r@ == lit_groups_head(),
{
    let v: Vec<u8> = vec![123, 34, 103, 114, 111, 117, 112, 115, 34, 58, 91];
    proof {
        assert(v@ =~= lit_groups_head());
    }
    v
}

fn lit_records_key_vec() -> (r: Vec<u8>)
    ensures
        r@ == lit_records_key(),
{
    let v: Vec<u8> = vec![44, 34, 114, 101, 99, 111, 114, 100, 115, 34, 58, 91];
    proof {
        assert(v@ =~= lit_records_key());
    }
    v
}

fn lit_id_key_vec() -> (r: Vec<u8>)
    ensures
        r@ == lit_id_key(),
{
    let v: Vec<u8> = vec![123, 34, 105, 100, 34, 58];
    proof {
        assert(v@ =~= lit_id_key());
    }
    v
}

fn lit_pid_key_vec() -> (r: Vec<u8>)
    ensures
        r@ == lit_pid_key(),
{
    let v: Vec<u8> = vec![44, 34, 112, 105, 100, 34, 58];
    proof {
        assert(v@ =~= lit_pid_key());
    }
    v
}

fn lit_name_key_vec() -> (r: Vec<u8>)
    ensures
        r@ == lit_name_key(),
{
    let v: Vec<u8> = vec![44, 34, 110, 97, 109, 101, 34, 58];
    proof {
        assert(v@ =~= lit_name_key());
    }
    v
}

fn lit_login_key_vec() -> (r: Vec<u8>)
    ensures
        r@ == lit_login_key(),
{
    let v: Vec<u8> = vec![44, 34, 108, 111, 103, 105, 110, 34, 58];
    proof {
        assert(v@ =~= lit_login_key());
    }
    v
}

fn lit_password_key_vec() -> (r: Vec<u8>)
    ensures
        r@ == lit_password_key(),
{
    let v: Vec<u8> = vec![44, 34, 112, 97, 115, 115, 119, 111, 114, 100, 34, 58];
    proof {
        assert(v@ =~= lit_password_key());
    }
    v
}

fn lit_url_key_vec() -> (r: Vec<u8>)
    ensures
        r@ == lit_url_key(),
{
    let v: Vec<u8> = vec![44, 34, 117, 114, 108, 34, 58];
    proof {
        assert(v@ =~= lit_url_key());
    }
    v
}

fn lit_login_symbol_key_vec() -> (r: Vec<u8>)
    ensures
        r@ == lit_login_symbol_key(),
{
    let v: Vec<u8> = vec![44, 34, 108, 111, 103, 105, 110, 83, 121, 109, 98, 111, 108, 34, 58];
    proof {
        assert(v@ =~= lit_login_symbol_key());
    }
    v
}

fn lit_password_symbol_key_vec() -> (r: Vec<u8>)
    ensures
        r@ == lit_password_symbol_key(),
{
    let v: Vec<u8> = vec![
        44,
        34,
        112,
        97,
        115,
        115,
        119,
        111,
        114,
        100,
        83,
        121,
        109,
        98,
        111,
        108,
        34,
        58,
    ];
    proof {
        assert(v@ =~= lit_password_symbol_key());
    }
    v
}

fn lit_url_symbol_key_vec() -> (r: Vec<u8>)
    ensures
        r@ == lit_url_symbol_key(),
{
    let v: Vec<u8> = vec![44, 34, 117, 114, 108, 83, 121, 109, 98, 111, 108, 34, 58];
    proof {
        assert(v@ =~= lit_url_symbol_key());
    }
    v
}

fn emit_u32(out: &mut Vec<u8>, n: u32)
    ensures
        final(out)@ == old(out)@ + ser_u32(n),
    decreases n,
{
    if n < 10 {
        out.push((48 + n) as u8);
        proof {
            assert(out@ =~= old(out)@ + ser_u32(n));
        }
    } else {
        emit_u32(out, n / 10);
        out.push((48 + n % 10) as u8);
        proof {
            assert(out@ =~= old(out)@ + ser_u32(n));
        }
    }
}

fn emit_char(out: &mut Vec<u8>, c: char)
    ensures
        final(out)@ == old(out)@ + esc_char(c),
{
    let u = c as u32;
    proof {
        broadcast use vstd::utf8::char_is_scalar;

        assert(is_scalar(u));
    }
    if c == '"' {
        out.push(92);
        out.push(34);
        proof {
            assert(out@ =~= old(out)@ + esc_char(c));
        }
    } else if c == '\\' {
        out.push(92);
        out.push(92);
        proof {
            assert(out@ =~= old(out)@ + esc_char(c));
        }
    } else if u < 32 {
        out.push(92);
        out.push(117);
        out.push(48);
        out.push(48);
        out.push(hex_lower_exec(u / 16));
        out.push(hex_lower_exec(u % 16));
        proof {
            assert(out@ =~= old(out)@ + esc_char(c));
        }
    } else if u < 128 {
        out.push(u as u8);
        proof {
            assert(u & 0x7F == u) by (bit_vector)
                requires
                    u < 128,
            ;
            assert(out@ =~= old(out)@ + esc_char(c));
        }
    } else if u < 0x800 {
        out.push(0xC0 | (((u >> 6) & 0x1F) as u8));
        out.push(0x80 | ((u & 0x3F) as u8));
        proof {
            assert(out@ =~= old(out)@ + esc_char(c));
        }
    } else if u < 0x10000 {
        out.push(0xE0 | (((u >> 12) & 0x0F) as u8));
        out.push(0x80 | (((u >> 6) & 0x3F) as u8));
        out.push(0x80 | ((u & 0x3F) as u8));
        proof {
            assert(out@ =~= old(out)@ + esc_char(c));
        }
    } else {
        out.push(0xF0 | (((u >> 18) & 0x7) as u8));
        out.push(0x80 | (((u >> 12) & 0x3F) as u8));
        out.push(0x80 | (((u >> 6) & 0x3F) as u8));
        out.push(0x80 | ((u & 0x3F) as u8));
        proof {
            assert(out@ =~= old(out)@ + esc_char(c));
        }
    }
}

fn emit_string(out: &mut Vec<u8>, s: &String)
    ensures
        final(out)@ == old(out)@ + ser_string(s@),
{
    out.push(34);
    let n = s.as_str().unicode_len();
    let mut i: usize = 0;
    while i < n
        invariant
            i <= n,
            n == s@.len(),
            out@ == old(out)@ + seq![34u8] + ser_chars(s@.take(i as int)),
        decreases n - i,
    {
        let c = s.as_str().get_char(i);
        emit_char(out, c);
        proof {
            assert(s@.take(i + 1).drop_last() =~= s@.take(i as int));
            assert(s@.take(i + 1).last() == s@[i as int]);
            assert(out@ =~= old(out)@ + seq![34u8] + ser_chars(s@.take(i + 1)));
        }
        i += 1;
    }
    out.push(34);
    proof {
        assert(s@.take(n as int) =~= s@);
        assert(out@ =~= old(out)@ + ser_string(s@));
    }
}

fn emit_symbol(out: &mut Vec<u8>, sym: InputSymbol)
    ensures
        final(out)@ == old(out)@ + ser_symbol(sym),
{
    match sym {
        InputSymbol::Tab => {
            out.push(34);
            out.push(84);
            out.push(65);
            out.push(66);
            out.push(34);
        },
        InputSymbol::Enter => {
            out.push(34);
            out.push(69);
            out.push(78);
            out.push(84);
            out.push(69);
            out.push(82);
            out.push(34);
        },
        InputSymbol::Space => {
            out.push(34);
            out.push(83);
            out.push(80);
            out.push(65);
            out.push(67);
            out.push(69);
            out.push(34);
        },
        InputSymbol::NoSymbol => {
            out.push(34);
            out.push(78);
            out.push(79);
            out.push(78);
            out.push(69);
            out.push(34);
        },
    }
    proof {
        assert(out@ =~= old(out)@ + ser_symbol(sym));
    }
}

fn emit_group(out: &mut Vec<u8>, g: &crate::model::Group)
    ensures
        final(out)@ == old(out)@ + ser_group(g@),
{
    let p1 = lit_id_key_vec();
    emit_all(out, &p1);
    emit_u32(out, g.id);
    let p2 = lit_pid_key_vec();
    emit_all(out, &p2);
    emit_u32(out, g.pid);
    let p3 = lit_name_key_vec();
    emit_all(out, &p3);
    emit_string(out, &g.name);
    out.push(125);
    proof {
        assert(out@ =~= old(out)@ + ser_group(g@));
    }
}

#[verifier::rlimit(80)]
fn emit_record(out: &mut Vec<u8>, r: &crate::model::Record)
    ensures
        final(out)@ == old(out)@ + ser_record(r@),
{
    let p1 = lit_id_key_vec();
    emit_all(out, &p1);
    emit_u32(out, r.id);
    let p2 = lit_pid_key_vec();
    emit_all(out, &p2);
    emit_u32(out, r.pid);
    let p3 = lit_name_key_vec();
    emit_all(out, &p3);
    emit_string(out, &r.name);
    let p4 = lit_login_key_vec();
    emit_all(out, &p4);
    emit_string(out, &r.login);
    let p5 = lit_password_key_vec();
    emit_all(out, &p5);
    emit_string(out, &r.password);
    let p6 = lit_url_key_vec();
    emit_all(out, &p6);
    emit_string(out, &r.url);
    let p7 = lit_login_symbol_key_vec();
    emit_all(out, &p7);
    emit_symbol(out, r.login_symbol);
    let p8 = lit_password_symbol_key_vec();
    emit_all(out, &p8);
    emit_symbol(out, r.password_symbol);
    let p9 = lit_url_symbol_key_vec();
    emit_all(out, &p9);
    emit_symbol(out, r.url_symbol);
    out.push(125);
    proof {
        assert(out@ =~= old(out)@ + ser_record(r@));
    }
}

/// Serializes a vault into its canonical on-disk JSON bytes.
#[verifier::rlimit(80)]
pub fn serialize_vault(data: &crate::model::PasswordData) -> (r: Vec<u8>)
    ensures
        r@ == ser_vault(data@),
{
    let mut out: Vec<u8> = Vec::new();
    let head = lit_groups_head_vec();
    emit_all(&mut out, &head);
    let mut i: usize = 0;
    while i < data.groups.len()
        invariant
            i <= data.groups.len(),
            out@ == lit_groups_head() + ser_groups(data@.groups.take(i as int)),
        decreases data.groups.len() - i,
    {
        if i > 0 {
            out.push(44);
        }
        emit_group(&mut out, &data.groups[i]);
        proof {
            assert(data.groups@[i as int]@ == data@.groups[i as int]);
            assert(data@.groups.take(i + 1).drop_last() =~= data@.groups.take(i as int));
            assert(data@.groups.take(i + 1).last() == data@.groups[i as int]);
            assert(out@ =~= lit_groups_head() + ser_groups(data@.groups.take(i + 1)));
        }
        i += 1;
    }
    proof {
        assert(data@.groups.take(data.groups.len() as int) =~= data@.groups);
    }
    out.push(93);
    let rk = lit_records_key_vec();
    emit_all(&mut out, &rk);
    let ghost mid = out@;
    let mut j: usize = 0;
    while j < data.records.len()
        invariant
            j <= data.records.len(),
            out@ == mid + ser_records(data@.records.take(j as int)),
        decreases data.records.len() - j,
    {
        if j > 0 {
            out.push(44);
        }
        emit_record(&mut out, &data.records[j]);
        proof {
            assert(data.records@[j as int]@ == data@.records[j as int]);
            assert(data@.records.take(j + 1).drop_last() =~= data@.records.take(j as int));
            assert(data@.records.take(j + 1).last() == data@.records[j as int]);
            assert(out@ =~= mid + ser_records(data@.records.take(j + 1)));
        }
        j += 1;
    }
    proof {
        assert(data@.records.take(data.records.len() as int) =~= data@.records);
    }
    out.push(93);
    out.push(125);
    proof {
        assert(out@ =~= ser_vault(data@));
    }
    out
}


// ---------------------------------------------------------------------------
// The verified reader.
// ---------------------------------------------------------------------------
/// Relies on `String::push`: appends exactly one character.
#[verifier::external_body]
fn push_char(s: &mut String, c: char)
    ensures
        final(s)@ == old(s)@.push(c),
{
    s.push(c);
}

/// Relies on `char::from_u32`: every value outside the surrogate range
/// and at most 0x10FFFF is accepted, and the character's scalar value is
/// the argument itself.
#[verifier::external_body]
fn char_from_u32(v: u32) -> (c: char)
    requires
        is_scalar(v),
    ensures
        c as u32 == v,
{
    char::from_u32(v).unwrap()
}

fn hex_val_exec(b: u8) -> (r: Option<u32>)
    ensures
        r == hex_val(b),
{
    if b >= 48 && b <= 57 {
        Some((b - 48) as u32)
    } else if b >= 97 && b <= 102 {
        Some((b - 87) as u32)
    } else if b >= 65 && b <= 70 {
        Some((b - 55) as u32)
    } else {
        None
    }
}

fn e_match(data: &Vec<u8>, i: usize, pat: &Vec<u8>) -> (r: Option<usize>)
    ensures
        match r {
            Some(j) => p_match(data@, i as int, pat@) == Some(j as int),
            None => p_match(data@, i as int, pat@) is None,
        },
{
    if i > data.len() || data.len() - i < pat.len() {
        return None;
    }
    let mut k: usize = 0;
    while k < pat.len()
        invariant
            i + pat@.len() <= data@.len(),
            data@.len() <= usize::MAX,
            k <= pat@.len(),
            forall|t: int| 0 <= t < k ==> data@[i + t] == pat@[t],
        decreases pat.len() - k,
    {
        proof {
            assert(i + k < data@.len());
        }
        if data[i + k] != pat[k] {
            proof {
                assert(p_match(data@, i as int, pat@) is None) by {
                    if data@.subrange(i as int, i + pat@.len() as int) == pat@ {
                        assert(data@.subrange(i as int, i + pat@.len() as int)[k as int]
                            == data@[i + k]);
                    }
                }
            }
            return None;
        }
        k += 1;
    }
    proof {
        assert(data@.subrange(i as int, i + pat@.len() as int) =~= pat@);
    }
    Some(i + pat.len())
}

fn e_u32(data: &Vec<u8>, i: usize) -> (r: Option<(u32, usize)>)
    ensures
        match r {
            Some(v) => p_u32(data@, i as int) == Some((v.0, v.1 as int)),
            None => p_u32(data@, i as int) is None,
        },
{
    if i >= data.len() || data[i] < 48 || data[i] > 57 {
        return None;
    }
    let mut j: usize = i;
    let mut acc: u32 = 0;
    while j < data.len() && data[j] >= 48 && data[j] <= 57
        invariant
            i <= j <= data@.len(),
            p_digits(data@, i as int, 0) == p_digits(data@, j as int, acc),
        decreases data@.len() - j,
    {
        let ghost pj = j as int;
        let ghost pacc = acc;
        let d = (data[j] - 48) as u32;
        if acc > 429496729 || (acc == 429496729 && d > 5) {
            proof {
                assert(p_digits(data@, pj, pacc) is None);
            }
            return None;
        }
        acc = 10 * acc + d;
        j += 1;
        proof {
            assert(p_digits(data@, pj, pacc) == p_digits(data@, j as int, acc));
        }
    }
    proof {
        assert(p_digits(data@, j as int, acc) == Some((acc, j as int)));
    }
    Some((acc, j))
}

#[verifier::rlimit(60)]
fn e_chars(data: &Vec<u8>, start: usize) -> (r: Option<(String, usize)>)
    requires
        start <= data@.len(),
    ensures
        match r {
            Some(v) => p_chars(data@, start as int, Seq::empty()) == Some((v.0@, v.1 as int)),
            None => p_chars(data@, start as int, Seq::empty()) is None,
        },
{
    let mut acc = String::new();
    let mut i: usize = start;
    loop
        invariant
            start <= i <= data@.len(),
            p_chars(data@, start as int, Seq::empty()) == p_chars(data@, i as int, acc@),
        decreases data@.len() - i,
    {
        let ghost pi = i as int;
        let ghost pacc = acc@;
        if i >= data.len() {
            return None;
        }
        let b = data[i];
        if b == 34 {
            return Some((acc, i + 1));
        } else if b == 92 {
            if i + 1 >= data.len() {
                return None;
            }
            let e = data[i + 1];
            if e == 34 {
                push_char(&mut acc, '"');
                i += 2;
            } else if e == 92 {
                push_char(&mut acc, '\\');
                i += 2;
            } else if e == 47 {
                push_char(&mut acc, '/');
                i += 2;
            } else if e == 98 {
                push_char(&mut acc, '\u{0008}');
                i += 2;
            } else if e == 102 {
                push_char(&mut acc, '\u{000C}');
                i += 2;
            } else if e == 110 {
                push_char(&mut acc, '\n');
                i += 2;
            } else if e == 114 {
                push_char(&mut acc, '\r');
                i += 2;
            } else if e == 116 {
                push_char(&mut acc, '\t');
                i += 2;
            } else if e == 117 {
                if data.len() - i < 6 {
                    return None;
                }
                let h1 = hex_val_exec(data[i + 2]);
                let h2 = hex_val_exec(data[i + 3]);
                let h3 = hex_val_exec(data[i + 4]);
                let h4 = hex_val_exec(data[i + 5]);
                match (h1, h2, h3, h4) {
                    (Some(a), Some(b2), Some(c2), Some(d2)) => {
                        proof {
                            assert(a < 16 && b2 < 16 && c2 < 16 && d2 < 16);
                        }
                        let cp: u32 = a * 4096 + b2 * 256 + c2 * 16 + d2;
                        if cp >= 0xD800 && cp <= 0xDFFF {
                            return None;
                        }
                        proof {
                            assert(is_scalar(cp));
                        }
                        let ch = char_from_u32(cp);
                        push_char(&mut acc, ch);
                        proof {
                            broadcast use vstd::utf8::char_u32_cast;

                            assert(ch == cp as char);
                        }
                        i += 6;
                    },
                    _ => {
                        return None;
                    },
                }
            } else {
                return None;
            }
        } else if b < 32 {
            return None;
        } else if b < 128 {
            push_char(&mut acc, b as char);
            i += 1;
        } else {
            let ghost rest = data@.subrange(pi, data@.len() as int);
            proof {
                assert(rest[0] == b);
            }
            if b < 0xC0 {
                proof {
                    assert(!valid_first_scalar(rest));
                }
                return None;
            } else if b < 0xE0 {
                if data.len() - i < 2 {
                    proof {
                        assert(!valid_first_scalar(rest));
                    }
                    return None;
                }
                let b2 = data[i + 1];
                proof {
                    assert(rest[1] == b2);
                }
                if b2 < 0x80 || b2 > 0xBF {
                    proof {
                        assert(!valid_first_scalar(rest));
                    }
                    return None;
                }
                let cp: u32 = (((b & 0x1F) as u32) << 6) | ((b2 & 0x3F) as u32);
                if cp < 0x80 {
                    proof {
                        assert(!valid_first_scalar(rest));
                    }
                    return None;
                }
                proof {
                    assert(cp <= 0x7FF) by (bit_vector)
                        requires
                            cp == (((b & 0x1F) as u32) << 6) | ((b2 & 0x3F) as u32),
                    ;
                    assert(is_scalar(cp));
                    assert(valid_first_scalar(rest));
                    assert(decode_first_scalar(rest) == cp);
                    assert(length_of_first_scalar(rest) == 2);
                }
                let ch = char_from_u32(cp);
                push_char(&mut acc, ch);
                proof {
                    broadcast use vstd::utf8::char_u32_cast;

                    assert(ch == cp as char);
                }
                i += 2;
            } else if b < 0xF0 {
                if data.len() - i < 3 {
                    proof {
                        assert(!valid_first_scalar(rest));
                    }
                    return None;
                }
                let b2 = data[i + 1];
                let b3 = data[i + 2];
                proof {
                    assert(rest[1] == b2);
                    assert(rest[2] == b3);
                }
                if b2 < 0x80 || b2 > 0xBF || b3 < 0x80 || b3 > 0xBF {
                    proof {
                        assert(!valid_first_scalar(rest));
                    }
                    return None;
                }
                let cp: u32 = (((b & 0x0F) as u32) << 12) | (((b2 & 0x3F) as u32) << 6) | ((b3
                    & 0x3F) as u32);
                if cp < 0x800 || (cp >= 0xD800 && cp <= 0xDFFF) {
                    proof {
                        assert(!valid_first_scalar(rest));
                    }
                    return None;
                }
                proof {
                    assert(cp <= 0xFFFF) by (bit_vector)
                        requires
                            cp == (((b & 0x0F) as u32) << 12) | (((b2 & 0x3F) as u32) << 6) | ((b3
                                & 0x3F) as u32),
                    ;
                    assert(is_scalar(cp));
                    assert(valid_first_scalar(rest));
                    assert(decode_first_scalar(rest) == cp);
                    assert(length_of_first_scalar(rest) == 3);
                }
                let ch = char_from_u32(cp);
                push_char(&mut acc, ch);
                proof {
                    broadcast use vstd::utf8::char_u32_cast;

                    assert(ch == cp as char);
                }
                i += 3;
            } else if b < 0xF8 {
                if data.len() - i < 4 {
                    proof {
                        assert(!valid_first_scalar(rest));
                    }
                    return None;
                }
                let b2 = data[i + 1];
                let b3 = data[i + 2];
                let b4 = data[i + 3];
                proof {
                    assert(rest[1] == b2);
                    assert(rest[2] == b3);
                    assert(rest[3] == b4);
                }
                if b2 < 0x80 || b2 > 0xBF || b3 < 0x80 || b3 > 0xBF || b4 < 0x80 || b4 > 0xBF {
                    proof {
                        assert(!valid_first_scalar(rest));
                    }
                    return None;
                }
                let cp: u32 = (((b & 0x07) as u32) << 18) | (((b2 & 0x3F) as u32) << 12) | (((b3
                    & 0x3F) as u32) << 6) | ((b4 & 0x3F) as u32);
                if cp < 0x10000 || cp > 0x10FFFF {
                    proof {
                        assert(!valid_first_scalar(rest));
                    }
                    return None;
                }
                proof {
                    assert(is_scalar(cp));
                    assert(valid_first_scalar(rest));
                    assert(decode_first_scalar(rest) == cp);
                    assert(length_of_first_scalar(rest) == 4);
                }
                let ch = char_from_u32(cp);
                push_char(&mut acc, ch);
                proof {
                    broadcast use vstd::utf8::char_u32_cast;

                    assert(ch == cp as char);
                }
                i += 4;
            } else {
                proof {
                    assert(!valid_first_scalar(rest));
                }
                return None;
            }
        }
        proof {
            assert(p_chars(data@, pi, pacc) == p_chars(data@, i as int, acc@));
        }
    }
}

fn e_string(data: &Vec<u8>, i: usize) -> (r: Option<(String, usize)>)
    ensures
        match r {
            Some(v) => p_string(data@, i as int) == Some((v.0@, v.1 as int)),
            None => p_string(data@, i as int) is None,
        },
{
    if i < data.len() && data[i] == 34 {
        e_chars(data, i + 1)
    } else {
        None
    }
}

fn symbol_vec(sym: InputSymbol) -> (r: Vec<u8>)
    ensures
        r@ == ser_symbol(sym),
{
    match sym {
        InputSymbol::Tab => {
            let v: Vec<u8> = vec![34, 84, 65, 66, 34];
            proof {
                assert(v@ =~= ser_symbol(InputSymbol::Tab));
            }
            v
        },
        InputSymbol::Enter => {
            let v: Vec<u8> = vec![34, 69, 78, 84, 69, 82, 34];
            proof {
                assert(v@ =~= ser_symbol(InputSymbol::Enter));
            }
            v
        },
        InputSymbol::Space => {
            let v: Vec<u8> = vec![34, 83, 80, 65, 67, 69, 34];
            proof {
                assert(v@ =~= ser_symbol(InputSymbol::Space));
            }
            v
        },
        InputSymbol::NoSymbol => {
            let v: Vec<u8> = vec![34, 78, 79, 78, 69, 34];
            proof {
                assert(v@ =~= ser_symbol(InputSymbol::NoSymbol));
            }
            v
        },
    }
}

fn e_symbol(data: &Vec<u8>, i: usize) -> (r: Option<(InputSymbol, usize)>)
    ensures
        match r {
            Some(v) => p_symbol(data@, i as int) == Some((v.0, v.1 as int)),
            None => p_symbol(data@, i as int) is None,
        },
{
    let tab = symbol_vec(InputSymbol::Tab);
    if let Some(j) = e_match(data, i, &tab) {
        return Some((InputSymbol::Tab, j));
    }
    let enter = symbol_vec(InputSymbol::Enter);
    if let Some(j) = e_match(data, i, &enter) {
        return Some((InputSymbol::Enter, j));
    }
    let space = symbol_vec(InputSymbol::Space);
    if let Some(j) = e_match(data, i, &space) {
        return Some((InputSymbol::Space, j));
    }
    let nosym = symbol_vec(InputSymbol::NoSymbol);
    if let Some(j) = e_match(data, i, &nosym) {
        return Some((InputSymbol::NoSymbol, j));
    }
    None
}

fn e_group(data: &Vec<u8>, i: usize) -> (r: Option<(crate::model::Group, usize)>)
    ensures
        match r {
            Some(v) => p_group(data@, i as int) == Some((v.0@, v.1 as int)),
            None => p_group(data@, i as int) is None,
        },
{
    let idk = lit_id_key_vec();
    let i1 = match e_match(data, i, &idk) {
        None => {
            return None;
        },
        Some(j) => j,
    };
    let (id, i2) = match e_u32(data, i1) {
        None => {
            return None;
        },
        Some(v) => v,
    };
    let pidk = lit_pid_key_vec();
    let i3 = match e_match(data, i2, &pidk) {
        None => {
            return None;
        },
        Some(j) => j,
    };
    let (pid, i4) = match e_u32(data, i3) {
        None => {
            return None;
        },
        Some(v) => v,
    };
    let namek = lit_name_key_vec();
    let i5 = match e_match(data, i4, &namek) {
        None => {
            return None;
        },
        Some(j) => j,
    };
    let (name, i6) = match e_string(data, i5) {
        None => {
            return None;
        },
        Some(v) => v,
    };
    let rb: Vec<u8> = vec![125];
    proof {
        assert(rb@ =~= seq![125u8]);
    }
    let i7 = match e_match(data, i6, &rb) {
        None => {
            return None;
        },
        Some(j) => j,
    };
    Some((crate::model::Group { id, pid, name }, i7))
}

#[verifier::rlimit(60)]
fn e_record(data: &Vec<u8>, i: usize) -> (r: Option<(crate::model::Record, usize)>)
    ensures
        match r {
            Some(v) => p_record(data@, i as int) == Some((v.0@, v.1 as int)),
            None => p_record(data@, i as int) is None,
        },
{
    let idk = lit_id_key_vec();
    let i1 = match e_match(data, i, &idk) {
        None => {
            return None;
        },
        Some(j) => j,
    };
    let (id, i2) = match e_u32(data, i1) {
        None => {
            return None;
        },
        Some(v) => v,
    };
    let pidk = lit_pid_key_vec();
    let i3 = match e_match(data, i2, &pidk) {
        None => {
            return None;
        },
        Some(j) => j,
    };
    let (pid, i4) = match e_u32(data, i3) {
        None => {
            return None;
        },
        Some(v) => v,
    };
    let namek = lit_name_key_vec();
    let i5 = match e_match(data, i4, &namek) {
        None => {
            return None;
        },
        Some(j) => j,
    };
    let (name, i6) = match e_string(data, i5) {
        None => {
            return None;
        },
        Some(v) => v,
    };
    let logink = lit_login_key_vec();
    let i7 = match e_match(data, i6, &logink) {
        None => {
            return None;
        },
        Some(j) => j,
    };
    let (login, i8) = match e_string(data, i7) {
        None => {
            return None;
        },
        Some(v) => v,
    };
    let passk = lit_password_key_vec();
    let i9 = match e_match(data, i8, &passk) {
        None => {
            return None;
        },
        Some(j) => j,
    };
    let (password, i10) = match e_string(data, i9) {
        None => {
            return None;
        },
        Some(v) => v,
    };
    let urlk = lit_url_key_vec();
    let i11 = match e_match(data, i10, &urlk) {
        None => {
            return None;
        },
        Some(j) => j,
    };
    let (url, i12) = match e_string(data, i11) {
        None => {
            return None;
        },
        Some(v) => v,
    };
    let lsk = lit_login_symbol_key_vec();
    let i13 = match e_match(data, i12, &lsk) {
        None => {
            return None;
        },
        Some(j) => j,
    };
    let (login_symbol, i14) = match e_symbol(data, i13) {
        None => {
            return None;
        },
        Some(v) => v,
    };
    let psk = lit_password_symbol_key_vec();
    let i15 = match e_match(data, i14, &psk) {
        None => {
            return None;
        },
        Some(j) => j,
    };
    let (password_symbol, i16) = match e_symbol(data, i15) {
        None => {
            return None;
        },
        Some(v) => v,
    };
    let usk = lit_url_symbol_key_vec();
    let i17 = match e_match(data, i16, &usk) {
        None => {
            return None;
        },
        Some(j) => j,
    };
    let (url_symbol, i18) = match e_symbol(data, i17) {
        None => {
            return None;
        },
        Some(v) => v,
    };
    let rb: Vec<u8> = vec![125];
    proof {
        assert(rb@ =~= seq![125u8]);
    }
    let i19 = match e_match(data, i18, &rb) {
        None => {
            return None;
        },
        Some(j) => j,
    };
    Some(
        (
            crate::model::Record {
                id,
                pid,
                name,
                login,
                password,
                url,
                login_symbol,
                password_symbol,
                url_symbol,
            },
            i19,
        ),
    )
}

fn e_groups(data: &Vec<u8>, start: usize) -> (r: Option<(Vec<crate::model::Group>, usize)>)
    requires
        start <= data@.len(),
    ensures
        match r {
            Some(v) => p_groups(data@, start as int) == Some((group_views(v.0@), v.1 as int)),
            None => p_groups(data@, start as int) is None,
        },
{
    if start < data.len() && data[start] == 93 {
        let out: Vec<crate::model::Group> = Vec::new();
        proof {
            assert(group_views(out@) =~= Seq::<GroupView>::empty());
        }
        return Some((out, start + 1));
    }
    let mut out: Vec<crate::model::Group> = Vec::new();
    let ghost mut accv: Seq<GroupView> = Seq::empty();
    let mut i: usize = start;
    proof {
        assert(group_views(out@) =~= Seq::<GroupView>::empty());
    }
    loop
        invariant
            start <= i <= data@.len(),
            accv == group_views(out@),
            p_groups_rest(data@, start as int, Seq::empty()) == p_groups_rest(
                data@,
                i as int,
                accv,
            ),
            p_groups(data@, start as int) == p_groups_rest(data@, start as int, Seq::empty()),
        decreases data@.len() - i,
    {
        let ghost pi = i as int;
        let ghost paccv = accv;
        let (g, j) = match e_group(data, i) {
            None => {
                return None;
            },
            Some(v) => v,
        };
        proof {
            lemma_p_group_bounds(data@, pi);
        }
        if j < data.len() && data[j] == 44 {
            proof {
                lemma_group_views_push(out@, g);
                accv = accv.push(g@);
            }
            out.push(g);
            i = j + 1;
            proof {
                assert(p_groups_rest(data@, pi, paccv) == p_groups_rest(data@, i as int, accv));
            }
        } else if j < data.len() && data[j] == 93 {
            proof {
                lemma_group_views_push(out@, g);
                assert(p_groups_rest(data@, pi, paccv) == Some((paccv.push(g@), j + 1 as int)));
            }
            out.push(g);
            return Some((out, j + 1));
        } else {
            return None;
        }
    }
}

fn e_records(data: &Vec<u8>, start: usize) -> (r: Option<(Vec<crate::model::Record>, usize)>)
    requires
        start <= data@.len(),
    ensures
        match r {
            Some(v) => p_records(data@, start as int) == Some((record_views(v.0@), v.1 as int)),
            None => p_records(data@, start as int) is None,
        },
{
    if start < data.len() && data[start] == 93 {
        let out: Vec<crate::model::Record> = Vec::new();
        proof {
            assert(record_views(out@) =~= Seq::<RecordView>::empty());
        }
        return Some((out, start + 1));
    }
    let mut out: Vec<crate::model::Record> = Vec::new();
    let ghost mut accv: Seq<RecordView> = Seq::empty();
    let mut i: usize = start;
    proof {
        assert(record_views(out@) =~= Seq::<RecordView>::empty());
    }
    loop
        invariant
            start <= i <= data@.len(),
            accv == record_views(out@),
            p_records_rest(data@, start as int, Seq::empty()) == p_records_rest(
                data@,
                i as int,
                accv,
            ),
            p_records(data@, start as int) == p_records_rest(data@, start as int, Seq::empty()),
        decreases data@.len() - i,
    {
        let ghost pi = i as int;
        let ghost paccv = accv;
        let (g, j) = match e_record(data, i) {
            None => {
                return None;
            },
            Some(v) => v,
        };
        proof {
            lemma_p_record_bounds(data@, pi);
        }
        if j < data.len() && data[j] == 44 {
            proof {
                lemma_record_views_push(out@, g);
                accv = accv.push(g@);
            }
            out.push(g);
            i = j + 1;
            proof {
                assert(p_records_rest(data@, pi, paccv) == p_records_rest(data@, i as int, accv));
            }
        } else if j < data.len() && data[j] == 93 {
            proof {
                lemma_record_views_push(out@, g);
                assert(p_records_rest(data@, pi, paccv) == Some((paccv.push(g@), j + 1 as int)));
            }
            out.push(g);
            return Some((out, j + 1));
        } else {
            return None;
        }
    }
}

/// Parses the canonical on-disk JSON bytes back into a vault; every
/// input that does not match the document grammar is `FormatError`.
pub fn parse_vault(data: &Vec<u8>) -> (r: Result<crate::model::PasswordData, VaultError>)
    ensures
        r is Ok <==> p_doc(data@) is Some,
        r matches Ok(d) ==> p_doc(data@) == Some(d@),
        r matches Err(e) ==> e == VaultError::FormatError,
{
    let head = lit_groups_head_vec();
    let i1 = match e_match(data, 0, &head) {
        None => {
            return Err(VaultError::FormatError);
        },
        Some(j) => j,
    };
    let (groups, i2) = match e_groups(data, i1) {
        None => {
            return Err(VaultError::FormatError);
        },
        Some(v) => v,
    };
    let rk = lit_records_key_vec();
    let i3 = match e_match(data, i2, &rk) {
        None => {
            return Err(VaultError::FormatError);
        },
        Some(j) => j,
    };
    let (records, i4) = match e_records(data, i3) {
        None => {
            return Err(VaultError::FormatError);
        },
        Some(v) => v,
    };
    let rb: Vec<u8> = vec![125];
    proof {
        assert(rb@ =~= seq![125u8]);
    }
    let i5 = match e_match(data, i4, &rb) {
        None => {
            return Err(VaultError::FormatError);
        },
        Some(j) => j,
    };
    if i5 != data.len() {
        return Err(VaultError::FormatError);
    }
    Ok(crate::model::PasswordData { groups, records })
}

} // verus!
