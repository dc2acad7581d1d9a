use vstd::prelude::*;

use crate::address::is_digit;
use crate::address::spec_digits_value;
use crate::errors::ProtocolError;

verus! {

// The status payload is one JSON document. The spec functions below define
// the grammar the client accepts — standard JSON syntax, with numbers
// classified as 64-bit integers or not — and what it extracts from the
// document: `players.online`, `players.max`, and the `name` of each entry
// of `players.sample`. Unknown fields are skipped; `sample` absent, null or
// empty all mean "no sample".
/// Whether `b` is JSON whitespace.
pub open spec fn is_ws(b: u8) -> bool {
    b == 32 || b == 9 || b == 10 || b == 13
}

/// The first position at or after `i` holding no whitespace.
pub open spec fn spec_ws(s: Seq<u8>, i: int) -> int
    decreases s.len() - i,
{
    if 0 <= i < s.len() && is_ws(s[i]) {
        spec_ws(s, i + 1)
    } else {
        i
    }
}

/// The value of a hexadecimal digit.
pub open spec fn spec_hex_val(b: u8) -> Option<nat> {
    if 48 <= b <= 57 {
        Some((b - 48) as nat)
    } else if 97 <= b <= 102 {
        Some((b - 87) as nat)
    } else if 65 <= b <= 70 {
        Some((b - 55) as nat)
    } else {
        None
    }
}

/// The value of the four hexadecimal digits at `i`.
pub open spec fn spec_hex4(s: Seq<u8>, i: int) -> Option<nat> {
    if 0 <= i && i + 4 <= s.len() {
        match (spec_hex_val(s[i]), spec_hex_val(s[i + 1]), spec_hex_val(s[i + 2]), spec_hex_val(
            s[i + 3],
        )) {
            (Some(a), Some(b), Some(c), Some(d)) => Some(
                (a * 0x1000 + b * 0x100 + c * 0x10 + d) as nat,
            ),
            _ => None,
        }
    } else {
        None
    }
}

/// The UTF-8 bytes of the scalar value `cp` (meaningful for `cp` below
/// 0x110000).
pub open spec fn spec_utf8(cp: nat) -> Seq<u8> {
    if cp < 0x80 {
        seq![cp as u8]
    } else if cp < 0x800 {
        seq![(0xC0 + cp / 0x40) as u8, (0x80 + cp % 0x40) as u8]
    } else if cp < 0x10000 {
        seq![
            (0xE0 + cp / 0x1000) as u8,
            (0x80 + (cp / 0x40) % 0x40) as u8,
            (0x80 + cp % 0x40) as u8,
        ]
    } else {
        seq![
            (0xF0 + cp / 0x40000) as u8,
            (0x80 + (cp / 0x1000) % 0x40) as u8,
            (0x80 + (cp / 0x40) % 0x40) as u8,
            (0x80 + cp % 0x40) as u8,
        ]
    }
}

/// Walk the characters of a string body starting at `i` (just after the
/// opening quote), decoding escapes, accumulating into `acc`; yields the
/// decoded bytes and the position after the closing quote.
pub open spec fn spec_str_chars(s: Seq<u8>, i: int, acc: Seq<u8>) -> Option<(Seq<u8>, int)>
    decreases s.len() - i,
{
    if !(0 <= i < s.len()) {
        None
    } else {
        let b = s[i];
        if b == 34 {
            Some((acc, i + 1))
        } else if b == 92 {
            if i + 1 < s.len() {
                let e = s[i + 1];
                if e == 34 || e == 92 || e == 47 {
                    spec_str_chars(s, i + 2, acc.push(e))
                } else if e == 98 {
                    spec_str_chars(s, i + 2, acc.push(8))
                } else if e == 102 {
                    spec_str_chars(s, i + 2, acc.push(12))
                } else if e == 110 {
                    spec_str_chars(s, i + 2, acc.push(10))
                } else if e == 114 {
                    spec_str_chars(s, i + 2, acc.push(13))
                } else if e == 116 {
                    spec_str_chars(s, i + 2, acc.push(9))
                } else if e == 117 {
                    match spec_hex4(s, i + 2) {
                        None => None,
                        Some(c) => if 0xD800 <= c < 0xDC00 {
                            if i + 7 < s.len() && s[i + 6] == 92 && s[i + 7] == 117 {
                                match spec_hex4(s, i + 8) {
                                    None => None,
                                    Some(c2) => if 0xDC00 <= c2 < 0xE000 {
                                        spec_str_chars(
                                            s,
                                            i + 12,
                                            acc + spec_utf8(
                                                (0x10000 + (c - 0xD800) * 0x400 + (c2
                                                    - 0xDC00)) as nat,
                                            ),
                                        )
                                    } else {
                                        None
                                    },
                                }
                            } else {
                                None
                            }
                        } else if 0xDC00 <= c < 0xE000 {
                            None
                        } else {
                            spec_str_chars(s, i + 6, acc + spec_utf8(c))
                        },
                    }
                } else {
                    None
                }
            } else {
                None
            }
        } else if b < 0x20 {
            None
        } else {
            spec_str_chars(s, i + 1, acc.push(b))
        }
    }
}

/// A JSON string at `i`: its decoded bytes and the position after it.
pub open spec fn spec_json_string(s: Seq<u8>, i: int) -> Option<(Seq<u8>, int)> {
    if 0 <= i < s.len() && s[i] == 34 {
        spec_str_chars(s, i + 1, Seq::empty())
    } else {
        None
    }
}

/// The first position at or after `i` holding no decimal digit.
pub open spec fn spec_digits_end(s: Seq<u8>, i: int) -> int
    decreases s.len() - i,
{
    if 0 <= i < s.len() && is_digit(s[i]) {
        spec_digits_end(s, i + 1)
    } else {
        i
    }
}

/// A JSON number at `i`: `Some(v)` when it is an integer representable as
/// an `i64`, `None` when it has a fraction or exponent or does not fit; and
/// the position after it.
pub open spec fn spec_json_number(s: Seq<u8>, i: int) -> Option<(Option<i64>, int)> {
    let neg = 0 <= i < s.len() && s[i] == 45;
    let i1 = if neg {
        i + 1
    } else {
        i
    };
    if !(0 <= i1 < s.len() && is_digit(s[i1])) {
        None
    } else {
        let int_end = if s[i1] == 48 {
            i1 + 1
        } else {
            spec_digits_end(s, i1)
        };
        if s[i1] == 48 && int_end < s.len() && is_digit(s[int_end]) {
            None
        } else {
            let has_frac = int_end < s.len() && s[int_end] == 46;
            let fe = if has_frac {
                spec_digits_end(s, int_end + 1)
            } else {
                int_end
            };
            if has_frac && fe == int_end + 1 {
                None
            } else {
                let has_exp = fe < s.len() && (s[fe] == 101 || s[fe] == 69);
                let es = if has_exp && fe + 1 < s.len() && (s[fe + 1] == 43 || s[fe + 1] == 45) {
                    fe + 2
                } else {
                    fe + 1
                };
                let ee = if has_exp {
                    spec_digits_end(s, es)
                } else {
                    fe
                };
                if has_exp && ee == es {
                    None
                } else if has_frac || has_exp {
                    Some((None, ee))
                } else {
                    let v = spec_digits_value(s.subrange(i1, int_end));
                    if neg {
                        if v > 0x8000000000000000 {
                            Some((None, int_end))
                        } else {
                            Some((Some((-(v as int)) as i64), int_end))
                        }
                    } else {
                        if v > 0x7FFFFFFFFFFFFFFF {
                            Some((None, int_end))
                        } else {
                            Some((Some(v as i64), int_end))
                        }
                    }
                }
            }
        }
    }
}

/// The position after any JSON value at `i`, descending at most `d` levels
/// into objects and arrays.
pub open spec fn spec_skip_value(s: Seq<u8>, i: int, d: nat) -> Option<int>
    decreases d, s.len() - i, 0int,
{
    if !(0 <= i < s.len()) {
        None
    } else {
        let b = s[i];
        if b == 34 {
            match spec_json_string(s, i) {
                Some((_c, j)) => Some(j),
                None => None,
            }
        } else if b == 116 {
            if i + 4 <= s.len() && s[i + 1] == 114 && s[i + 2] == 117 && s[i + 3] == 101 {
                Some(i + 4)
            } else {
                None
            }
        } else if b == 102 {
            if i + 5 <= s.len() && s[i + 1] == 97 && s[i + 2] == 108 && s[i + 3] == 115 && s[i + 4]
                == 101 {
                Some(i + 5)
            } else {
                None
            }
        } else if b == 110 {
            if i + 4 <= s.len() && s[i + 1] == 117 && s[i + 2] == 108 && s[i + 3] == 108 {
                Some(i + 4)
            } else {
                None
            }
        } else if b == 45 || is_digit(b) {
            match spec_json_number(s, i) {
                Some((_v, j)) => Some(j),
                None => None,
            }
        } else if b == 123 {
            if d == 0 {
                None
            } else {
                let a = spec_ws(s, i + 1);
                if !(i < a && a < s.len()) {
                    None
                } else if s[a] == 125 {
                    Some(a + 1)
                } else {
                    spec_skip_members(s, a, (d - 1) as nat)
                }
            }
        } else if b == 91 {
            if d == 0 {
                None
            } else {
                let a = spec_ws(s, i + 1);
                if !(i < a && a < s.len()) {
                    None
                } else if s[a] == 93 {
                    Some(a + 1)
                } else {
                    spec_skip_items(s, a, (d - 1) as nat)
                }
            }
        } else {
            None
        }
    }
}

/// The position after the members of an object, `i` standing at a key.
pub open spec fn spec_skip_members(s: Seq<u8>, i: int, d: nat) -> Option<int>
    decreases d, s.len() - i, 1int,
{
    if !(0 <= i < s.len()) {
        None
    } else {
        match spec_json_string(s, i) {
            None => None,
            Some((_k, j)) => {
                let c = spec_ws(s, j);
                if !(c < s.len() && s[c] == 58) {
                    None
                } else {
                    let v0 = spec_ws(s, c + 1);
                    if !(i < v0 && v0 <= s.len()) {
                        None
                    } else {
                        match spec_skip_value(s, v0, d) {
                            None => None,
                            Some(j2) => {
                                let p = spec_ws(s, j2);
                                if !(p < s.len()) {
                                    None
                                } else if s[p] == 44 {
                                    let nx = spec_ws(s, p + 1);
                                    if i < nx && nx <= s.len() {
                                        spec_skip_members(s, nx, d)
                                    } else {
                                        None
                                    }
                                } else if s[p] == 125 {
                                    Some(p + 1)
                                } else {
                                    None
                                }
                            },
                        }
                    }
                }
            },
        }
    }
}

/// The position after the items of an array, `i` standing at an item.
pub open spec fn spec_skip_items(s: Seq<u8>, i: int, d: nat) -> Option<int>
    decreases d, s.len() - i, 1int,
{
    if !(0 <= i < s.len()) {
        None
    } else {
        match spec_skip_value(s, i, d) {
            None => None,
            Some(j) => {
                let p = spec_ws(s, j);
                if !(p < s.len()) {
                    None
                } else if s[p] == 44 {
                    let nx = spec_ws(s, p + 1);
                    if i < nx && nx <= s.len() {
                        spec_skip_items(s, nx, d)
                    } else {
                        None
                    }
                } else if s[p] == 93 {
                    Some(p + 1)
                } else {
                    None
                }
            },
        }
    }
}

/// The bytes of the key `players`.
pub open spec fn players_key() -> Seq<u8> {
    seq![112u8, 108u8, 97u8, 121u8, 101u8, 114u8, 115u8]
}

/// The bytes of the key `online`.
pub open spec fn online_key() -> Seq<u8> {
    seq![111u8, 110u8, 108u8, 105u8, 110u8, 101u8]
}

/// The bytes of the key `max`.
pub open spec fn max_key() -> Seq<u8> {
    seq![109u8, 97u8, 120u8]
}

/// The bytes of the key `sample`.
pub open spec fn sample_key() -> Seq<u8> {
    seq![115u8, 97u8, 109u8, 112u8, 108u8, 101u8]
}

/// The bytes of the key `name`.
pub open spec fn name_key() -> Seq<u8> {
    seq![110u8, 97u8, 109u8, 101u8]
}

/// Walk the members of one sample entry, `i` at a key: the first `name`
/// member must be a string and is captured; everything else is skipped; at
/// the closing brace the name must have been seen.
pub open spec fn spec_entry_members(s: Seq<u8>, i: int, nm: Option<Seq<u8>>, d: nat) -> Option<
    (Seq<u8>, int),
>
    decreases d, s.len() - i, 2int,
{
    if !(0 <= i < s.len()) {
        None
    } else {
        match spec_json_string(s, i) {
            None => None,
            Some((k, j)) => {
                let c = spec_ws(s, j);
                if !(c < s.len() && s[c] == 58) {
                    None
                } else {
                    let v0 = spec_ws(s, c + 1);
                    if !(i < v0 && v0 <= s.len()) {
                        None
                    } else {
                        let parsed: Option<(Option<Seq<u8>>, int)> = if k == name_key()
                            && nm is None {
                            if v0 < s.len() && s[v0] == 34 {
                                match spec_json_string(s, v0) {
                                    Some((v, j2)) => Some((Some(v), j2)),
                                    None => None,
                                }
                            } else {
                                None
                            }
                        } else {
                            match spec_skip_value(s, v0, d) {
                                Some(j2) => Some((nm, j2)),
                                None => None,
                            }
                        };
                        match parsed {
                            None => None,
                            Some((nm2, j2)) => {
                                let p = spec_ws(s, j2);
                                if !(p < s.len()) {
                                    None
                                } else if s[p] == 44 {
                                    let nx = spec_ws(s, p + 1);
                                    if i < nx && nx <= s.len() {
                                        spec_entry_members(s, nx, nm2, d)
                                    } else {
                                        None
                                    }
                                } else if s[p] == 125 {
                                    match nm2 {
                                        Some(v) => Some((v, p + 1)),
                                        None => None,
                                    }
                                } else {
                                    None
                                }
                            },
                        }
                    }
                }
            },
        }
    }
}

/// Walk the items of the sample array, `i` at an item: each must be an
/// object carrying a `name`; the names accumulate into `acc`.
pub open spec fn spec_sample_items(s: Seq<u8>, i: int, acc: Seq<Seq<u8>>, d: nat) -> Option<
    (Seq<Seq<u8>>, int),
>
    decreases d, s.len() - i, 3int,
{
    if !(0 <= i < s.len()) {
        None
    } else if s[i] != 123 {
        None
    } else {
        let a = spec_ws(s, i + 1);
        if !(i < a && a < s.len()) {
            None
        } else {
            let entry = if s[a] == 125 {
                None
            } else {
                spec_entry_members(s, a, None, d)
            };
            match entry {
                None => None,
                Some((v, j)) => {
                    let p = spec_ws(s, j);
                    if !(p < s.len()) {
                        None
                    } else if s[p] == 44 {
                        let nx = spec_ws(s, p + 1);
                        if i < nx && nx <= s.len() {
                            spec_sample_items(s, nx, acc.push(v), d)
                        } else {
                            None
                        }
                    } else if s[p] == 93 {
                        Some((acc.push(v), p + 1))
                    } else {
                        None
                    }
                },
            }
        }
    }
}

/// Walk the members of the `players` object, `i` at a key: the first
/// `online` and `max` members must be integers and are captured; the first
/// `sample` member must be null or an array of named entries; everything
/// else is skipped; at the closing brace `online` and `max` must both have
/// been seen, and a missing or null sample counts as no names.
pub open spec fn spec_players_members(
    s: Seq<u8>,
    i: int,
    online: Option<i64>,
    maxv: Option<i64>,
    sample: Option<Seq<Seq<u8>>>,
    d: nat,
) -> Option<((i64, i64, Seq<Seq<u8>>), int)>
    decreases d, s.len() - i, 4int,
{
    if !(0 <= i < s.len()) {
        None
    } else {
        match spec_json_string(s, i) {
            None => None,
            Some((k, j)) => {
                let c = spec_ws(s, j);
                if !(c < s.len() && s[c] == 58) {
                    None
                } else {
                    let v0 = spec_ws(s, c + 1);
                    if !(i < v0 && v0 <= s.len()) {
                        None
                    } else {
                        let parsed: Option<(Option<i64>, Option<i64>, Option<Seq<Seq<u8>>>, int)> =
                            if k == online_key() && online is None {
                            match spec_json_number(s, v0) {
                                Some((Some(v), j2)) => Some((Some(v), maxv, sample, j2)),
                                _ => None,
                            }
                        } else if k == max_key() && maxv is None {
                            match spec_json_number(s, v0) {
                                Some((Some(v), j2)) => Some((online, Some(v), sample, j2)),
                                _ => None,
                            }
                        } else if k == sample_key() && sample is None {
                            if v0 < s.len() && s[v0] == 110 {
                                match spec_skip_value(s, v0, d) {
                                    Some(j2) => Some((online, maxv, Some(Seq::empty()), j2)),
                                    None => None,
                                }
                            } else if v0 < s.len() && s[v0] == 91 {
                                let a = spec_ws(s, v0 + 1);
                                if !(v0 < a && a < s.len()) {
                                    None
                                } else if s[a] == 93 {
                                    Some((online, maxv, Some(Seq::empty()), a + 1))
                                } else {
                                    match spec_sample_items(s, a, Seq::empty(), (d - 1) as nat) {
                                        Some((vs, j2)) => Some((online, maxv, Some(vs), j2)),
                                        None => None,
                                    }
                                }
                            } else {
                                None
                            }
                        } else {
                            match spec_skip_value(s, v0, d) {
                                Some(j2) => Some((online, maxv, sample, j2)),
                                None => None,
                            }
                        };
                        match parsed {
                            None => None,
                            Some((on2, mx2, sm2, j2)) => {
                                let p = spec_ws(s, j2);
                                if !(p < s.len()) {
                                    None
                                } else if s[p] == 44 {
                                    let nx = spec_ws(s, p + 1);
                                    if i < nx && nx <= s.len() {
                                        spec_players_members(s, nx, on2, mx2, sm2, d)
                                    } else {
                                        None
                                    }
                                } else if s[p] == 125 {
                                    match (on2, mx2) {
                                        (Some(a), Some(b)) => Some(
                                            (
                                                (
                                                    a,
                                                    b,
                                                    match sm2 {
                                                        Some(vs) => vs,
                                                        None => Seq::empty(),
                                                    },
                                                ),
                                                p + 1,
                                            ),
                                        ),
                                        _ => None,
                                    }
                                } else {
                                    None
                                }
                            },
                        }
                    }
                }
            },
        }
    }
}

/// Walk the members of the top-level object, `i` at a key: the first
/// `players` member must be an object and yields the figures; everything
/// else is skipped.
pub open spec fn spec_top_members(
    s: Seq<u8>,
    i: int,
    players: Option<(i64, i64, Seq<Seq<u8>>)>,
    d: nat,
) -> Option<((i64, i64, Seq<Seq<u8>>), int)>
    decreases d, s.len() - i, 5int,
{
    if !(0 <= i < s.len()) {
        None
    } else {
        match spec_json_string(s, i) {
            None => None,
            Some((k, j)) => {
                let c = spec_ws(s, j);
                if !(c < s.len() && s[c] == 58) {
                    None
                } else {
                    let v0 = spec_ws(s, c + 1);
                    if !(i < v0 && v0 <= s.len()) {
                        None
                    } else {
                        let parsed: Option<(Option<(i64, i64, Seq<Seq<u8>>)>, int)> = if k
                            == players_key() && players is None {
                            if v0 < s.len() && s[v0] == 123 {
                                let a = spec_ws(s, v0 + 1);
                                if !(v0 < a && a < s.len()) {
                                    None
                                } else if s[a] == 125 {
                                    None
                                } else {
                                    match spec_players_members(
                                        s,
                                        a,
                                        None,
                                        None,
                                        None,
                                        (d - 1) as nat,
                                    ) {
                                        Some((trip, j2)) => Some((Some(trip), j2)),
                                        None => None,
                                    }
                                }
                            } else {
                                None
                            }
                        } else {
                            match spec_skip_value(s, v0, d) {
                                Some(j2) => Some((players, j2)),
                                None => None,
                            }
                        };
                        match parsed {
                            None => None,
                            Some((pl2, j2)) => {
                                let p = spec_ws(s, j2);
                                if !(p < s.len()) {
                                    None
                                } else if s[p] == 44 {
                                    let nx = spec_ws(s, p + 1);
                                    if i < nx && nx <= s.len() {
                                        spec_top_members(s, nx, pl2, d)
                                    } else {
                                        None
                                    }
                                } else if s[p] == 125 {
                                    match pl2 {
                                        Some(trip) => Some((trip, p + 1)),
                                        None => None,
                                    }
                                } else {
                                    None
                                }
                            },
                        }
                    }
                }
            },
        }
    }
}

/// Nesting the status parser accepts before it rejects a document as too
/// deep.
pub const STATUS_MAX_DEPTH: u32 = 64;

/// What the status document denotes: the online and max counts and the
/// sampled names, or nothing if the document is not a JSON object of the
/// required shape with only whitespace around it.
pub open spec fn spec_parse_status(s: Seq<u8>) -> Option<(i64, i64, Seq<Seq<u8>>)> {
    let i0 = spec_ws(s, 0);
    if !(0 <= i0 && i0 < s.len() && s[i0] == 123) {
        None
    } else {
        let a = spec_ws(s, i0 + 1);
        if !(i0 < a && a < s.len()) {
            None
        } else if s[a] == 125 {
            None
        } else {
            match spec_top_members(s, a, None, STATUS_MAX_DEPTH as nat) {
                None => None,
                Some((trip, e)) => if spec_ws(s, e) == s.len() {
                    Some(trip)
                } else {
                    None
                },
            }
        }
    }
}

/// The views of a sequence of name strings.
pub open spec fn names_view(v: Seq<Vec<u8>>) -> Seq<Seq<u8>> {
    v.map_values(|x: Vec<u8>| x@)
}

/// The view of an optional captured name.
pub open spec fn opt_name_view(o: Option<Vec<u8>>) -> Option<Seq<u8>> {
    match o {
        Some(v) => Some(v@),
        None => None,
    }
}

/// The view of an optional captured name list.
pub open spec fn opt_names_view(o: Option<Vec<Vec<u8>>>) -> Option<Seq<Seq<u8>>> {
    match o {
        Some(v) => Some(names_view(v@)),
        None => None,
    }
}

/// The view of an optional captured triple of figures.
pub open spec fn opt_trip_view(o: Option<(i64, i64, Vec<Vec<u8>>)>) -> Option<
    (i64, i64, Seq<Seq<u8>>),
> {
    match o {
        Some((a, b, v)) => Some((a, b, names_view(v@))),
        None => None,
    }
}

proof fn lemma_digits_end_props(s: Seq<u8>, i: int)
    requires
        0 <= i <= s.len(),
    ensures
        i <= spec_digits_end(s, i) <= s.len(),
        forall|m: int| i <= m < spec_digits_end(s, i) ==> is_digit(s[m]),
    decreases s.len() - i,
{
    if i < s.len() && is_digit(s[i]) {
        lemma_digits_end_props(s, i + 1);
    }
}

#[verifier::loop_isolation(false)]
fn skip_ws(bytes: &Vec<u8>, i: usize) -> (r: usize)
    requires
        i <= bytes@.len(),
    ensures
        r as int == spec_ws(bytes@, i as int),
        i <= r <= bytes@.len(),
{
    let mut j: usize = i;
    loop
        invariant
            i <= j <= bytes@.len(),
            spec_ws(bytes@, i as int) == spec_ws(bytes@, j as int),
        decreases bytes@.len() - j,
    {
        if j == bytes.len() {
            return j;
        }
        let b = bytes[j];
        if b == 32 || b == 9 || b == 10 || b == 13 {
            j = j + 1;
        } else {
            return j;
        }
    }
}

#[verifier::loop_isolation(false)]
fn digits_end(bytes: &Vec<u8>, i: usize) -> (r: usize)
    requires
        i <= bytes@.len(),
    ensures
        r as int == spec_digits_end(bytes@, i as int),
        i <= r <= bytes@.len(),
{
    let mut j: usize = i;
    loop
        invariant
            i <= j <= bytes@.len(),
            spec_digits_end(bytes@, i as int) == spec_digits_end(bytes@, j as int),
        decreases bytes@.len() - j,
    {
        if j == bytes.len() {
            return j;
        }
        let b = bytes[j];
        if 48 <= b && b <= 57 {
            j = j + 1;
        } else {
            return j;
        }
    }
}

fn parse_hex4(bytes: &Vec<u8>, i: usize) -> (r: Option<u32>)
    requires
        i <= bytes@.len(),
    ensures
        match r {
            Some(c) => spec_hex4(bytes@, i as int) == Some(c as nat) && c < 0x10000 && i + 4
                <= bytes@.len(),
            None => spec_hex4(bytes@, i as int) is None,
        },
{
    let len = bytes.len();
    if len - i < 4 {
        return None;
    }
    let a = match hex_val(bytes[i]) {
        Some(x) => x,
        None => {
            return None;
        },
    };
    let b = match hex_val(bytes[i + 1]) {
        Some(x) => x,
        None => {
            return None;
        },
    };
    let c = match hex_val(bytes[i + 2]) {
        Some(x) => x,
        None => {
            return None;
        },
    };
    let d = match hex_val(bytes[i + 3]) {
        Some(x) => x,
        None => {
            return None;
        },
    };
    Some((a as u32) * 0x1000 + (b as u32) * 0x100 + (c as u32) * 0x10 + (d as u32))
}

fn hex_val(b: u8) -> (r: Option<u8>)
    ensures
        match r {
            Some(x) => spec_hex_val(b) == Some(x as nat) && x < 16,
            None => spec_hex_val(b) is None,
        },
{
    if 48 <= b && b <= 57 {
        Some(b - 48)
    } else if 97 <= b && b <= 102 {
        Some(b - 87)
    } else if 65 <= b && b <= 70 {
        Some(b - 55)
    } else {
        None
    }
}

fn push_utf8(out: &mut Vec<u8>, cp: u32)
    requires
        cp < 0x110000,
    ensures
        final(out)@ == old(out)@ + spec_utf8(cp as nat),
{
    if cp < 0x80 {
        out.push(cp as u8);
    } else if cp < 0x800 {
        out.push((0xC0 + cp / 0x40) as u8);
        out.push((0x80 + cp % 0x40) as u8);
    } else if cp < 0x10000 {
        out.push((0xE0 + cp / 0x1000) as u8);
        out.push((0x80 + (cp / 0x40) % 0x40) as u8);
        out.push((0x80 + cp % 0x40) as u8);
    } else {
        out.push((0xF0 + cp / 0x40000) as u8);
        out.push((0x80 + (cp / 0x1000) % 0x40) as u8);
        out.push((0x80 + (cp / 0x40) % 0x40) as u8);
        out.push((0x80 + cp % 0x40) as u8);
    }
    proof {
        assert(out@ =~= old(out)@ + spec_utf8(cp as nat));
    }
}

#[verifier::loop_isolation(false)]
fn parse_json_string(bytes: &Vec<u8>, i: usize) -> (r: Option<(Vec<u8>, usize)>)
    requires
        i <= bytes@.len(),
    ensures
        match r {
            Some((v, j)) => spec_json_string(bytes@, i as int) == Some((v@, j as int)) && i < j
                <= bytes@.len(),
            None => spec_json_string(bytes@, i as int) is None,
        },
{
    let len = bytes.len();
    if i >= len || bytes[i] != 34 {
        return None;
    }
    let mut acc: Vec<u8> = Vec::new();
    let mut j: usize = i + 1;
    proof {
        assert(acc@ =~= Seq::<u8>::empty());
    }
    loop
        invariant
            i + 1 <= j <= bytes@.len(),
            spec_str_chars(bytes@, i + 1, Seq::empty()) == spec_str_chars(
                bytes@,
                j as int,
                acc@,
            ),
        decreases bytes@.len() - j,
    {
        if j >= len {
            return None;
        }
        let b = bytes[j];
        if b == 34 {
            return Some((acc, j + 1));
        }
        if b == 92 {
            if j + 1 >= len {
                return None;
            }
            let e = bytes[j + 1];
            if e == 34 || e == 92 || e == 47 {
                acc.push(e);
                j = j + 2;
            } else if e == 98 {
                acc.push(8);
                j = j + 2;
            } else if e == 102 {
                acc.push(12);
                j = j + 2;
            } else if e == 110 {
                acc.push(10);
                j = j + 2;
            } else if e == 114 {
                acc.push(13);
                j = j + 2;
            } else if e == 116 {
                acc.push(9);
                j = j + 2;
            } else if e == 117 {
                match parse_hex4(bytes, j + 2) {
                    None => {
                        return None;
                    },
                    Some(c) => {
                        if 0xD800 <= c && c < 0xDC00 {
                            if len - j > 7 && bytes[j + 6] == 92 && bytes[j + 7] == 117 {
                                match parse_hex4(bytes, j + 8) {
                                    None => {
                                        return None;
                                    },
                                    Some(c2) => {
                                        if 0xDC00 <= c2 && c2 < 0xE000 {
                                            let cp = 0x10000 + (c - 0xD800) * 0x400 + (c2
                                                - 0xDC00);
                                            push_utf8(&mut acc, cp);
                                            j = j + 12;
                                        } else {
                                            return None;
                                        }
                                    },
                                }
                            } else {
                                return None;
                            }
                        } else if 0xDC00 <= c && c < 0xE000 {
                            return None;
                        } else {
                            push_utf8(&mut acc, c);
                            j = j + 6;
                        }
                    },
                }
            } else {
                return None;
            }
        } else if b < 0x20 {
            return None;
        } else {
            acc.push(b);
            j = j + 1;
        }
    }
}

#[verifier::loop_isolation(false)]
#[verifier::rlimit(100)]
fn parse_number(bytes: &Vec<u8>, i: usize) -> (r: Option<(Option<i64>, usize)>)
    requires
        i <= bytes@.len(),
    ensures
        match r {
            Some((v, j)) => spec_json_number(bytes@, i as int) == Some((v, j as int)) && i < j
                <= bytes@.len(),
            None => spec_json_number(bytes@, i as int) is None,
        },
{
    let len = bytes.len();
    let neg = i < len && bytes[i] == 45;
    let i1 = if neg {
        i + 1
    } else {
        i
    };
    if i1 >= len {
        return None;
    }
    let b1 = bytes[i1];
    if b1 < 48 || b1 > 57 {
        return None;
    }
    proof {
        lemma_digits_end_props(bytes@, i1 as int);
    }
    let int_end = if b1 == 48 {
        i1 + 1
    } else {
        digits_end(bytes, i1)
    };
    proof {
        if b1 != 48 {
            assert(spec_digits_end(bytes@, i1 as int) == spec_digits_end(bytes@, i1 + 1));
            lemma_digits_end_props(bytes@, i1 + 1);
        }
        assert(i1 < int_end);
    }
    if b1 == 48 && int_end < len {
        let nb = bytes[int_end];
        if 48 <= nb && nb <= 57 {
            return None;
        }
    }
    let has_frac = int_end < len && bytes[int_end] == 46;
    let fe = if has_frac {
        digits_end(bytes, int_end + 1)
    } else {
        int_end
    };
    if has_frac && fe == int_end + 1 {
        return None;
    }
    let has_exp = fe < len && (bytes[fe] == 101 || bytes[fe] == 69);
    let ee = if has_exp {
        let es = if fe + 1 < len && (bytes[fe + 1] == 43 || bytes[fe + 1] == 45) {
            fe + 2
        } else {
            fe + 1
        };
        let e2 = digits_end(bytes, es);
        if e2 == es {
            return None;
        }
        e2
    } else {
        fe
    };
    if has_frac || has_exp {
        return Some((None, ee));
    }
    let ghost digs = bytes@.subrange(i1 as int, int_end as int);
    proof {
        assert(forall|m: int| i1 <= m < int_end ==> is_digit(bytes@[m]));
    }
    let mut acc: u64 = 0;
    let mut overflow = false;
    let mut k: usize = i1;
    proof {
        assert(digs.take(0) =~= Seq::<u8>::empty());
    }
    loop
        invariant
            i1 <= k <= int_end <= bytes@.len(),
            !overflow ==> acc as nat == spec_digits_value(digs.take(k - i1)) && acc
                <= 0x8000000000000000,
            overflow ==> spec_digits_value(digs.take(k - i1)) > 0x8000000000000000,
        decreases int_end - k,
    {
        if k == int_end {
            break ;
        }
        let dd = (bytes[k] - 48) as u64;
        let ghost prev = spec_digits_value(digs.take(k - i1));
        if !overflow {
            if acc <= (0x8000000000000000u64 - dd) / 10 {
                acc = acc * 10 + dd;
            } else {
                overflow = true;
            }
        }
        k = k + 1;
        proof {
            assert(digs.take(k - i1).take(k - i1 - 1) =~= digs.take(k - i1 - 1));
            assert(digs.take(k - i1)[k - i1 - 1] == bytes@[k - 1]);
            assert(spec_digits_value(digs.take(k - i1)) == prev * 10 + (bytes@[k - 1] - 48));
        }
    }
    proof {
        assert(digs.take(int_end - i1) =~= digs);
    }
    if neg {
        if overflow {
            return Some((None, int_end));
        }
        let v: i64 = if acc == 0x8000000000000000 {
            i64::MIN
        } else {
            -(acc as i64)
        };
        Some((Some(v), int_end))
    } else {
        if overflow || acc > 0x7FFFFFFFFFFFFFFF {
            return Some((None, int_end));
        }
        Some((Some(acc as i64), int_end))
    }
}

#[verifier::loop_isolation(false)]
fn skip_json_value(bytes: &Vec<u8>, i: usize, d: u32) -> (r: Option<usize>)
    requires
        i <= bytes@.len(),
    ensures
        match r {
            Some(j) => spec_skip_value(bytes@, i as int, d as nat) == Some(j as int) && i < j
                <= bytes@.len(),
            None => spec_skip_value(bytes@, i as int, d as nat) is None,
        },
    decreases d,
{
    let len = bytes.len();
    if i >= len {
        return None;
    }
    let b = bytes[i];
    if b == 34 {
        match parse_json_string(bytes, i) {
            Some((_v, j)) => Some(j),
            None => None,
        }
    } else if b == 116 {
        if len - i >= 4 && bytes[i + 1] == 114 && bytes[i + 2] == 117 && bytes[i + 3] == 101 {
            Some(i + 4)
        } else {
            None
        }
    } else if b == 102 {
        if len - i >= 5 && bytes[i + 1] == 97 && bytes[i + 2] == 108 && bytes[i + 3] == 115
            && bytes[i + 4] == 101 {
            Some(i + 5)
        } else {
            None
        }
    } else if b == 110 {
        if len - i >= 4 && bytes[i + 1] == 117 && bytes[i + 2] == 108 && bytes[i + 3] == 108 {
            Some(i + 4)
        } else {
            None
        }
    } else if b == 45 || (48 <= b && b <= 57) {
        match parse_number(bytes, i) {
            Some((_v, j)) => Some(j),
            None => None,
        }
    } else if b == 123 {
        if d == 0 {
            return None;
        }
        let a = skip_ws(bytes, i + 1);
        if a >= len {
            return None;
        }
        if bytes[a] == 125 {
            return Some(a + 1);
        }
        let mut j: usize = a;
        loop
            invariant
                a <= j <= bytes@.len(),
                spec_skip_members(bytes@, a as int, (d - 1) as nat) == spec_skip_members(
                    bytes@,
                    j as int,
                    (d - 1) as nat,
                ),
            decreases bytes@.len() - j,
        {
            if j >= len {
                return None;
            }
            match parse_json_string(bytes, j) {
                None => {
                    return None;
                },
                Some((_k, j1)) => {
                    let c = skip_ws(bytes, j1);
                    if c >= len || bytes[c] != 58 {
                        return None;
                    }
                    let v0 = skip_ws(bytes, c + 1);
                    match skip_json_value(bytes, v0, d - 1) {
                        None => {
                            return None;
                        },
                        Some(j2) => {
                            let p = skip_ws(bytes, j2);
                            if p >= len {
                                return None;
                            }
                            if bytes[p] == 44 {
                                let nx = skip_ws(bytes, p + 1);
                                j = nx;
                            } else if bytes[p] == 125 {
                                return Some(p + 1);
                            } else {
                                return None;
                            }
                        },
                    }
                },
            }
        }
    } else if b == 91 {
        if d == 0 {
            return None;
        }
        let a = skip_ws(bytes, i + 1);
        if a >= len {
            return None;
        }
        if bytes[a] == 93 {
            return Some(a + 1);
        }
        let mut j: usize = a;
        loop
            invariant
                a <= j <= bytes@.len(),
                spec_skip_items(bytes@, a as int, (d - 1) as nat) == spec_skip_items(
                    bytes@,
                    j as int,
                    (d - 1) as nat,
                ),
            decreases bytes@.len() - j,
        {
            if j >= len {
                return None;
            }
            match skip_json_value(bytes, j, d - 1) {
                None => {
                    return None;
                },
                Some(j2) => {
                    let p = skip_ws(bytes, j2);
                    if p >= len {
                        return None;
                    }
                    if bytes[p] == 44 {
                        let nx = skip_ws(bytes, p + 1);
                        j = nx;
                    } else if bytes[p] == 93 {
                        return Some(p + 1);
                    } else {
                        return None;
                    }
                },
            }
        }
    } else {
        None
    }
}

fn key_is_players(v: &Vec<u8>) -> (r: bool)
    ensures
        r == (v@ == players_key()),
{
    let r = v.len() == 7 && v[0] == 112 && v[1] == 108 && v[2] == 97 && v[3] == 121 && v[4] == 101
        && v[5] == 114 && v[6] == 115;
    proof {
        if r {
            assert(v@ =~= players_key());
        } else if v@ == players_key() {
            assert(v@.len() == 7);
            assert(v@[0] == 112u8 && v@[1] == 108u8 && v@[2] == 97u8 && v@[3] == 121u8 && v@[4]
                == 101u8 && v@[5] == 114u8 && v@[6] == 115u8);
        }
    }
    r
}

fn key_is_online(v: &Vec<u8>) -> (r: bool)
    ensures
        r == (v@ == online_key()),
{
    let r = v.len() == 6 && v[0] == 111 && v[1] == 110 && v[2] == 108 && v[3] == 105 && v[4] == 110
        && v[5] == 101;
    proof {
        if r {
            assert(v@ =~= online_key());
        } else if v@ == online_key() {
            assert(v@.len() == 6);
            assert(v@[0] == 111u8 && v@[1] == 110u8 && v@[2] == 108u8 && v@[3] == 105u8 && v@[4]
                == 110u8 && v@[5] == 101u8);
        }
    }
    r
}

fn key_is_max(v: &Vec<u8>) -> (r: bool)
    ensures
        r == (v@ == max_key()),
{
    let r = v.len() == 3 && v[0] == 109 && v[1] == 97 && v[2] == 120;
    proof {
        if r {
            assert(v@ =~= max_key());
        } else if v@ == max_key() {
            assert(v@.len() == 3);
            assert(v@[0] == 109u8 && v@[1] == 97u8 && v@[2] == 120u8);
        }
    }
    r
}

fn key_is_sample(v: &Vec<u8>) -> (r: bool)
    ensures
        r == (v@ == sample_key()),
{
    let r = v.len() == 6 && v[0] == 115 && v[1] == 97 && v[2] == 109 && v[3] == 112 && v[4] == 108
        && v[5] == 101;
    proof {
        if r {
            assert(v@ =~= sample_key());
        } else if v@ == sample_key() {
            assert(v@.len() == 6);
            assert(v@[0] == 115u8 && v@[1] == 97u8 && v@[2] == 109u8 && v@[3] == 112u8 && v@[4]
                == 108u8 && v@[5] == 101u8);
        }
    }
    r
}

fn key_is_name(v: &Vec<u8>) -> (r: bool)
    ensures
        r == (v@ == name_key()),
{
    let r = v.len() == 4 && v[0] == 110 && v[1] == 97 && v[2] == 109 && v[3] == 101;
    proof {
        if r {
            assert(v@ =~= name_key());
        } else if v@ == name_key() {
            assert(v@.len() == 4);
            assert(v@[0] == 110u8 && v@[1] == 97u8 && v@[2] == 109u8 && v@[3] == 101u8);
        }
    }
    r
}

#[verifier::loop_isolation(false)]
fn parse_entry_members(bytes: &Vec<u8>, i: usize, d: u32) -> (r: Option<(Vec<u8>, usize)>)
    requires
        i <= bytes@.len(),
    ensures
        match r {
            Some((v, j)) => spec_entry_members(bytes@, i as int, None, d as nat) == Some(
                (v@, j as int),
            ) && i < j <= bytes@.len(),
            None => spec_entry_members(bytes@, i as int, None, d as nat) is None,
        },
{
    let len = bytes.len();
    let mut j: usize = i;
    let mut nm: Option<Vec<u8>> = None;
    loop
        invariant
            i <= j <= bytes@.len(),
            spec_entry_members(bytes@, i as int, None, d as nat) == spec_entry_members(
                bytes@,
                j as int,
                opt_name_view(nm),
                d as nat,
            ),
        decreases bytes@.len() - j,
    {
        if j >= len {
            return None;
        }
        match parse_json_string(bytes, j) {
            None => {
                return None;
            },
            Some((k, j1)) => {
                let c = skip_ws(bytes, j1);
                if c >= len || bytes[c] != 58 {
                    return None;
                }
                let v0 = skip_ws(bytes, c + 1);
                let take_name = key_is_name(&k) && nm.is_none();
                let step: (Option<Vec<u8>>, usize) = if take_name {
                    if v0 >= len || bytes[v0] != 34 {
                        return None;
                    }
                    match parse_json_string(bytes, v0) {
                        None => {
                            return None;
                        },
                        Some((val, jj)) => (Some(val), jj),
                    }
                } else {
                    match skip_json_value(bytes, v0, d) {
                        None => {
                            return None;
                        },
                        Some(jj) => (nm, jj),
                    }
                };
                nm = step.0;
                let j2 = step.1;
                let p = skip_ws(bytes, j2);
                if p >= len {
                    return None;
                }
                if bytes[p] == 44 {
                    let nx = skip_ws(bytes, p + 1);
                    j = nx;
                } else if bytes[p] == 125 {
                    match nm {
                        Some(v) => {
                            return Some((v, p + 1));
                        },
                        None => {
                            return None;
                        },
                    }
                } else {
                    return None;
                }
            },
        }
    }
}

#[verifier::loop_isolation(false)]
fn parse_sample_items(bytes: &Vec<u8>, i: usize, d: u32) -> (r: Option<(Vec<Vec<u8>>, usize)>)
    requires
        i <= bytes@.len(),
    ensures
        match r {
            Some((vs, j)) => spec_sample_items(bytes@, i as int, Seq::empty(), d as nat) == Some(
                (names_view(vs@), j as int),
            ) && i < j <= bytes@.len(),
            None => spec_sample_items(bytes@, i as int, Seq::empty(), d as nat) is None,
        },
{
    let len = bytes.len();
    let mut j: usize = i;
    let mut acc: Vec<Vec<u8>> = Vec::new();
    proof {
        assert(names_view(acc@) =~= Seq::<Seq<u8>>::empty());
    }
    loop
        invariant
            i <= j <= bytes@.len(),
            spec_sample_items(bytes@, i as int, Seq::empty(), d as nat) == spec_sample_items(
                bytes@,
                j as int,
                names_view(acc@),
                d as nat,
            ),
        decreases bytes@.len() - j,
    {
        if j >= len {
            return None;
        }
        if bytes[j] != 123 {
            return None;
        }
        let a = skip_ws(bytes, j + 1);
        if a >= len {
            return None;
        }
        if bytes[a] == 125 {
            return None;
        }
        match parse_entry_members(bytes, a, d) {
            None => {
                return None;
            },
            Some((v, j1)) => {
                let p = skip_ws(bytes, j1);
                if p >= len {
                    return None;
                }
                let ghost prev = names_view(acc@);
                let ghost vv = v@;
                if bytes[p] == 44 {
                    let nx = skip_ws(bytes, p + 1);
                    acc.push(v);
                    proof {
                        assert(names_view(acc@) =~= prev.push(vv));
                    }
                    j = nx;
                } else if bytes[p] == 93 {
                    acc.push(v);
                    proof {
                        assert(names_view(acc@) =~= prev.push(vv));
                    }
                    return Some((acc, p + 1));
                } else {
                    return None;
                }
            },
        }
    }
}

#[verifier::loop_isolation(false)]
fn parse_players_members(bytes: &Vec<u8>, i: usize, d: u32) -> (r: Option<
    ((i64, i64, Vec<Vec<u8>>), usize),
>)
    requires
        i <= bytes@.len(),
        d >= 1,
    ensures
        match r {
            Some((trip, j)) => spec_players_members(bytes@, i as int, None, None, None, d as nat)
                == Some(((trip.0, trip.1, names_view(trip.2@)), j as int)) && i < j
                <= bytes@.len(),
            None => spec_players_members(bytes@, i as int, None, None, None, d as nat) is None,
        },
{
    let len = bytes.len();
    let mut j: usize = i;
    let mut on: Option<i64> = None;
    let mut mx: Option<i64> = None;
    let mut sm: Option<Vec<Vec<u8>>> = None;
    loop
        invariant
            i <= j <= bytes@.len(),
            spec_players_members(bytes@, i as int, None, None, None, d as nat)
                == spec_players_members(bytes@, j as int, on, mx, opt_names_view(sm), d as nat),
        decreases bytes@.len() - j,
    {
        if j >= len {
            return None;
        }
        match parse_json_string(bytes, j) {
            None => {
                return None;
            },
            Some((k, j1)) => {
                let c = skip_ws(bytes, j1);
                if c >= len || bytes[c] != 58 {
                    return None;
                }
                let v0 = skip_ws(bytes, c + 1);
                let j2: usize;
                if key_is_online(&k) && on.is_none() {
                    match parse_number(bytes, v0) {
                        Some((Some(v), jj)) => {
                            on = Some(v);
                            j2 = jj;
                        },
                        _ => {
                            return None;
                        },
                    }
                } else if key_is_max(&k) && mx.is_none() {
                    match parse_number(bytes, v0) {
                        Some((Some(v), jj)) => {
                            mx = Some(v);
                            j2 = jj;
                        },
                        _ => {
                            return None;
                        },
                    }
                } else if key_is_sample(&k) && sm.is_none() {
                    if v0 < len && bytes[v0] == 110 {
                        match skip_json_value(bytes, v0, d) {
                            None => {
                                return None;
                            },
                            Some(jj) => {
                                sm = Some(Vec::new());
                                j2 = jj;
                            },
                        }
                        proof {
                            assert(names_view(Seq::<Vec<u8>>::empty()) =~= Seq::<
                                Seq<u8>,
                            >::empty());
                        }
                    } else if v0 < len && bytes[v0] == 91 {
                        let a = skip_ws(bytes, v0 + 1);
                        if a >= len {
                            return None;
                        }
                        if bytes[a] == 93 {
                            sm = Some(Vec::new());
                            j2 = a + 1;
                            proof {
                                assert(names_view(Seq::<Vec<u8>>::empty()) =~= Seq::<
                                    Seq<u8>,
                                >::empty());
                            }
                        } else {
                            match parse_sample_items(bytes, a, d - 1) {
                                None => {
                                    return None;
                                },
                                Some((vs, jj)) => {
                                    sm = Some(vs);
                                    j2 = jj;
                                },
                            }
                        }
                    } else {
                        return None;
                    }
                } else {
                    match skip_json_value(bytes, v0, d) {
                        None => {
                            return None;
                        },
                        Some(jj) => {
                            j2 = jj;
                        },
                    }
                }
                let p = skip_ws(bytes, j2);
                if p >= len {
                    return None;
                }
                if bytes[p] == 44 {
                    let nx = skip_ws(bytes, p + 1);
                    j = nx;
                } else if bytes[p] == 125 {
                    match (on, mx) {
                        (Some(a), Some(b)) => {
                            let names = match sm {
                                Some(vs) => vs,
                                None => Vec::new(),
                            };
                            proof {
                                assert(names_view(Seq::<Vec<u8>>::empty()) =~= Seq::<
                                    Seq<u8>,
                                >::empty());
                            }
                            return Some(((a, b, names), p + 1));
                        },
                        _ => {
                            return None;
                        },
                    }
                } else {
                    return None;
                }
            },
        }
    }
}

#[verifier::loop_isolation(false)]
fn parse_top_members(bytes: &Vec<u8>, i: usize, d: u32) -> (r: Option<
    ((i64, i64, Vec<Vec<u8>>), usize),
>)
    requires
        i <= bytes@.len(),
        d >= 2,
    ensures
        match r {
            Some((trip, j)) => spec_top_members(bytes@, i as int, None, d as nat) == Some(
                ((trip.0, trip.1, names_view(trip.2@)), j as int),
            ) && i < j <= bytes@.len(),
            None => spec_top_members(bytes@, i as int, None, d as nat) is None,
        },
{
    let len = bytes.len();
    let mut j: usize = i;
    let mut players: Option<(i64, i64, Vec<Vec<u8>>)> = None;
    loop
        invariant
            i <= j <= bytes@.len(),
            spec_top_members(bytes@, i as int, None, d as nat) == spec_top_members(
                bytes@,
                j as int,
                opt_trip_view(players),
                d as nat,
            ),
        decreases bytes@.len() - j,
    {
        if j >= len {
            return None;
        }
        match parse_json_string(bytes, j) {
            None => {
                return None;
            },
            Some((k, j1)) => {
                let c = skip_ws(bytes, j1);
                if c >= len || bytes[c] != 58 {
                    return None;
                }
                let v0 = skip_ws(bytes, c + 1);
                let j2: usize;
                let take_players = key_is_players(&k) && players.is_none();
                if take_players {
                    if v0 >= len || bytes[v0] != 123 {
                        return None;
                    }
                    let a = skip_ws(bytes, v0 + 1);
                    if a >= len {
                        return None;
                    }
                    if bytes[a] == 125 {
                        return None;
                    }
                    match parse_players_members(bytes, a, d - 1) {
                        None => {
                            return None;
                        },
                        Some((trip, jj)) => {
                            players = Some(trip);
                            j2 = jj;
                        },
                    }
                } else {
                    match skip_json_value(bytes, v0, d) {
                        None => {
                            return None;
                        },
                        Some(jj) => {
                            j2 = jj;
                        },
                    }
                }
                let p = skip_ws(bytes, j2);
                if p >= len {
                    return None;
                }
                if bytes[p] == 44 {
                    let nx = skip_ws(bytes, p + 1);
                    j = nx;
                } else if bytes[p] == 125 {
                    match players {
                        Some(trip) => {
                            return Some((trip, p + 1));
                        },
                        None => {
                            return None;
                        },
                    }
                } else {
                    return None;
                }
            },
        }
    }
}

/// One decoded status response: the player counts and the sampled names.
/// An empty name list means the server sent no usable sample — an absent,
/// null or empty `sample` all land here.
#[derive(Debug, Clone, PartialEq)]
pub struct StatusResponse {
    pub players_online: i64,
    pub players_max: i64,
    pub sampled_names: Vec<Vec<u8>>,
}

/// Parse one status JSON document into the reported figures. Succeeds
/// exactly on documents the grammar accepts — a JSON object whose `players`
/// object carries integer `online` and `max` and an optional well-formed
/// `sample` — and returns exactly the counts and names the document
/// denotes; every other byte sequence is a protocol error.
pub fn parse_status(bytes: &Vec<u8>) -> (r: Result<StatusResponse, ProtocolError>)
    ensures
        match r {
            Ok(st) => spec_parse_status(bytes@) == Some(
                (st.players_online, st.players_max, names_view(st.sampled_names@)),
            ),
            Err(_) => spec_parse_status(bytes@) is None,
        },
{
    let len = bytes.len();
    let i0 = skip_ws(bytes, 0);
    if i0 >= len || bytes[i0] != 123 {
        return Err(ProtocolError::BadStatusJson);
    }
    let a = skip_ws(bytes, i0 + 1);
    if a >= len {
        return Err(ProtocolError::BadStatusJson);
    }
    if bytes[a] == 125 {
        return Err(ProtocolError::MissingStatusField);
    }
    match parse_top_members(bytes, a, STATUS_MAX_DEPTH) {
        None => Err(ProtocolError::BadStatusJson),
        Some((trip, e)) => {
            let fin = skip_ws(bytes, e);
            if fin == len {
                Ok(
                    StatusResponse {
                        players_online: trip.0,
                        players_max: trip.1,
                        sampled_names: trip.2,
                    },
                )
            } else {
                Err(ProtocolError::BadStatusJson)
            }
        },
    }
}

} // verus!
