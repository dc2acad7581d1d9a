use vstd::prelude::*;

use crate::bytes::be16;
use crate::bytes::be32;
use crate::bytes::copy_range;
use crate::bytes::read_be16;
use crate::bytes::read_be32;
use crate::errors::DecodeError;
use crate::errors::FieldName;

verus! {

// The server-list file is one NBT document: a root compound whose `servers`
// field is a list of compounds, each carrying string fields `name` and `ip`.
// Every tag is a type byte; named tags add a 16-bit length-prefixed name;
// payloads follow, big-endian throughout. The spec functions below define
// the accepted grammar; the executable decoder returns exactly what they
// denote.
/// One saved server: its display name and its address, both taken verbatim
/// (as UTF-8 bytes) from the document.
#[derive(Debug, Clone, PartialEq)]
pub struct ServerEntry {
    pub name: Vec<u8>,
    pub address: Vec<u8>,
}

/// The mathematical value of a `ServerEntry`.
pub ghost struct SpecServerEntry {
    pub name: Seq<u8>,
    pub address: Seq<u8>,
}

impl View for ServerEntry {
    type V = SpecServerEntry;

    open spec fn view(&self) -> SpecServerEntry {
        SpecServerEntry { name: self.name@, address: self.address@ }
    }
}

/// The saved servers, in on-disk order.
#[derive(Debug, Clone, PartialEq)]
pub struct ServerList {
    pub entries: Vec<ServerEntry>,
}

/// The views of a sequence of entries.
pub open spec fn entries_view(v: Seq<ServerEntry>) -> Seq<SpecServerEntry> {
    v.map_values(|e: ServerEntry| e@)
}

/// The bytes of the field name `name`.
pub open spec fn name_bytes() -> Seq<u8> {
    seq![110u8, 97u8, 109u8, 101u8]
}

/// The bytes of the field name `ip`.
pub open spec fn ip_bytes() -> Seq<u8> {
    seq![105u8, 112u8]
}

/// The bytes of the field name `servers`.
pub open spec fn servers_bytes() -> Seq<u8> {
    seq![115u8, 101u8, 114u8, 118u8, 101u8, 114u8, 115u8]
}

/// Nesting the decoder accepts before it rejects a document as too deep.
pub const NBT_MAX_DEPTH: u32 = 32;

/// A 16-bit length-prefixed string payload at `i`: its bytes and the
/// position after it.
pub open spec fn spec_nbt_string(s: Seq<u8>, i: int) -> Option<(Seq<u8>, int)> {
    if 0 <= i && i + 2 <= s.len() {
        let n = be16(s, i) as int;
        if i + 2 + n <= s.len() {
            Some((s.subrange(i + 2, i + 2 + n), i + 2 + n))
        } else {
            None
        }
    } else {
        None
    }
}

/// The position after the payload of a tag of type `t` at `i`, descending
/// at most `d` levels into lists and compounds.
pub open spec fn spec_skip_payload(s: Seq<u8>, i: int, t: u8, d: nat) -> Option<int>
    decreases d, s.len() - i, 0int,
{
    if i < 0 {
        None
    } else if t == 1 {
        if i + 1 <= s.len() {
            Some(i + 1)
        } else {
            None
        }
    } else if t == 2 {
        if i + 2 <= s.len() {
            Some(i + 2)
        } else {
            None
        }
    } else if t == 3 || t == 5 {
        if i + 4 <= s.len() {
            Some(i + 4)
        } else {
            None
        }
    } else if t == 4 || t == 6 {
        if i + 8 <= s.len() {
            Some(i + 8)
        } else {
            None
        }
    } else if t == 7 || t == 11 || t == 12 {
        if i + 4 <= s.len() {
            let n = be32(s, i) as int;
            let w: int = if t == 7 {
                1
            } else if t == 11 {
                4
            } else {
                8
            };
            if n < 0x80000000 && i + 4 + n * w <= s.len() {
                Some(i + 4 + n * w)
            } else {
                None
            }
        } else {
            None
        }
    } else if t == 8 {
        match spec_nbt_string(s, i) {
            Some((_c, j)) => Some(j),
            None => None,
        }
    } else if t == 9 {
        if d == 0 {
            None
        } else if i + 5 <= s.len() {
            let et = s[i];
            let n = be32(s, i + 1) as int;
            if n >= 0x80000000 {
                None
            } else if n > 0 && (et == 0 || et > 12) {
                None
            } else {
                spec_skip_list(s, i + 5, et, n as nat, (d - 1) as nat)
            }
        } else {
            None
        }
    } else if t == 10 {
        if d == 0 {
            None
        } else {
            spec_skip_fields(s, i, (d - 1) as nat)
        }
    } else {
        None
    }
}

/// The position after `n` consecutive payloads of type `et` starting at `i`.
pub open spec fn spec_skip_list(s: Seq<u8>, i: int, et: u8, n: nat, d: nat) -> Option<int>
    decreases d, s.len() - i, 1int,
{
    if i < 0 {
        None
    } else if n == 0 {
        Some(i)
    } else {
        match spec_skip_payload(s, i, et, d) {
            None => None,
            Some(j) => if i < j <= s.len() {
                spec_skip_list(s, j, et, (n - 1) as nat, d)
            } else {
                None
            },
        }
    }
}

/// The position after a compound body at `i`: named tags up to and
/// including the end-tag byte.
pub open spec fn spec_skip_fields(s: Seq<u8>, i: int, d: nat) -> Option<int>
    decreases d, s.len() - i, 1int,
{
    if 0 <= i && i + 1 <= s.len() {
        let t = s[i];
        if t == 0 {
            Some(i + 1)
        } else if t > 12 {
            None
        } else {
            match spec_nbt_string(s, i + 1) {
                None => None,
                Some((_fname, j)) => match spec_skip_payload(s, j, t, d) {
                    None => None,
                    Some(j2) => if i < j2 <= s.len() {
                        spec_skip_fields(s, j2, d)
                    } else {
                        None
                    },
                },
            }
        }
    } else {
        None
    }
}

/// Walk one server compound body at `i`, remembering the first `name` and
/// `ip` string fields; yields the pair and the position after the end tag.
/// A `name` or `ip` field that is not a string, or one of them missing at
/// the end tag, rejects the entry.
pub open spec fn spec_server_fields(
    s: Seq<u8>,
    i: int,
    nm: Option<Seq<u8>>,
    ip: Option<Seq<u8>>,
    d: nat,
) -> Option<((Seq<u8>, Seq<u8>), int)>
    decreases d, s.len() - i, 1int,
{
    if 0 <= i && i + 1 <= s.len() {
        let t = s[i];
        if t == 0 {
            match (nm, ip) {
                (Some(a), Some(b)) => Some(((a, b), i + 1)),
                _ => None,
            }
        } else if t > 12 {
            None
        } else {
            match spec_nbt_string(s, i + 1) {
                None => None,
                Some((fname, j)) => if fname == name_bytes() || fname == ip_bytes() {
                    if t != 8 {
                        None
                    } else {
                        match spec_nbt_string(s, j) {
                            None => None,
                            Some((v, j2)) => if i < j2 <= s.len() {
                                if fname == name_bytes() {
                                    let nm2 = if nm is None {
                                        Some(v)
                                    } else {
                                        nm
                                    };
                                    spec_server_fields(s, j2, nm2, ip, d)
                                } else {
                                    let ip2 = if ip is None {
                                        Some(v)
                                    } else {
                                        ip
                                    };
                                    spec_server_fields(s, j2, nm, ip2, d)
                                }
                            } else {
                                None
                            },
                        }
                    }
                } else {
                    match spec_skip_payload(s, j, t, d) {
                        None => None,
                        Some(j2) => if i < j2 <= s.len() {
                            spec_server_fields(s, j2, nm, ip, d)
                        } else {
                            None
                        },
                    }
                },
            }
        }
    } else {
        None
    }
}

/// Parse `n` server compounds starting at `i`, appending to `acc`.
pub open spec fn spec_server_elems(
    s: Seq<u8>,
    i: int,
    n: nat,
    acc: Seq<SpecServerEntry>,
    d: nat,
) -> Option<(Seq<SpecServerEntry>, int)>
    decreases d, s.len() - i, 2int,
{
    if i < 0 {
        None
    } else if n == 0 {
        Some((acc, i))
    } else {
        match spec_server_fields(s, i, None, None, d) {
            None => None,
            Some(((a, b), j)) => if i < j <= s.len() {
                spec_server_elems(
                    s,
                    j,
                    (n - 1) as nat,
                    acc.push(SpecServerEntry { name: a, address: b }),
                    d,
                )
            } else {
                None
            },
        }
    }
}

/// Parse the payload of the `servers` list at `i`: element type, big-endian
/// 32-bit count, then that many server compounds. A negative count, or a
/// non-compound element type with a nonzero count, is rejected.
pub open spec fn spec_servers_list(s: Seq<u8>, i: int, d: nat) -> Option<
    (Seq<SpecServerEntry>, int),
>
    decreases d, s.len() - i, 3int,
{
    if 0 <= i && i + 5 <= s.len() {
        let et = s[i];
        let n = be32(s, i + 1) as int;
        if n >= 0x80000000 {
            None
        } else if n > 0 && et != 10 {
            None
        } else {
            spec_server_elems(s, i + 5, n as nat, Seq::empty(), d)
        }
    } else {
        None
    }
}

/// Walk the root compound body at `i`: the first `servers` list field is
/// parsed, every other field is skipped; yields the entries and the
/// position after the end tag. A `servers` field that is not a list, or no
/// `servers` field at all, rejects the document.
pub open spec fn spec_root_fields(
    s: Seq<u8>,
    i: int,
    found: Option<Seq<SpecServerEntry>>,
    d: nat,
) -> Option<(Seq<SpecServerEntry>, int)>
    decreases d, s.len() - i, 4int,
{
    if 0 <= i && i + 1 <= s.len() {
        let t = s[i];
        if t == 0 {
            match found {
                Some(es) => Some((es, i + 1)),
                None => None,
            }
        } else if t > 12 {
            None
        } else {
            match spec_nbt_string(s, i + 1) {
                None => None,
                Some((fname, j)) => if fname == servers_bytes() && found is None {
                    if t != 9 {
                        None
                    } else {
                        match spec_servers_list(s, j, d) {
                            None => None,
                            Some((es, j2)) => if i < j2 <= s.len() {
                                spec_root_fields(s, j2, Some(es), d)
                            } else {
                                None
                            },
                        }
                    }
                } else {
                    match spec_skip_payload(s, j, t, d) {
                        None => None,
                        Some(j2) => if i < j2 <= s.len() {
                            spec_root_fields(s, j2, found, d)
                        } else {
                            None
                        },
                    }
                },
            }
        }
    } else {
        None
    }
}

/// What decoding a server-list document yields: a root compound tag, its
/// name, its body with a `servers` list, and nothing after it.
pub open spec fn spec_decode_servers(s: Seq<u8>) -> Option<Seq<SpecServerEntry>> {
    if s.len() >= 1 && s[0] == 10 {
        match spec_nbt_string(s, 1) {
            None => None,
            Some((_rootname, j)) => match spec_root_fields(
                s,
                j,
                None,
                (NBT_MAX_DEPTH - 1) as nat,
            ) {
                None => None,
                Some((es, e)) => if e == s.len() {
                    Some(es)
                } else {
                    None
                },
            },
        }
    } else {
        None
    }
}

fn skip_nbt_string(bytes: &Vec<u8>, i: usize) -> (r: Option<usize>)
    requires
        i <= bytes@.len(),
    ensures
        match r {
            Some(j) => spec_nbt_string(bytes@, i as int) == Some(
                (bytes@.subrange(i + 2, j as int), j as int),
            ) && i + 2 <= j <= bytes@.len(),
            None => spec_nbt_string(bytes@, i as int) is None,
        },
{
    let len = bytes.len();
    if len - i < 2 {
        return None;
    }
    let n = read_be16(bytes, i) as usize;
    if len - (i + 2) < n {
        return None;
    }
    Some(i + 2 + n)
}

/// Whether `bytes[a..b]` is exactly the field name `name`.
fn range_is_name(bytes: &Vec<u8>, a: usize, b: usize) -> (r: bool)
    requires
        a <= b <= bytes@.len(),
    ensures
        r == (bytes@.subrange(a as int, b as int) == name_bytes()),
{
    let r = b - a == 4 && bytes[a] == 110 && bytes[a + 1] == 97 && bytes[a + 2] == 109 && bytes[a
        + 3] == 101;
    proof {
        if r {
            assert(bytes@.subrange(a as int, b as int) =~= name_bytes());
        } else {
            if bytes@.subrange(a as int, b as int) == name_bytes() {
                assert(bytes@.subrange(a as int, b as int).len() == 4);
                assert(bytes@.subrange(a as int, b as int)[0] == 110u8);
                assert(bytes@.subrange(a as int, b as int)[1] == 97u8);
                assert(bytes@.subrange(a as int, b as int)[2] == 109u8);
                assert(bytes@.subrange(a as int, b as int)[3] == 101u8);
            }
        }
    }
    r
}

/// Whether `bytes[a..b]` is exactly the field name `ip`.
fn range_is_ip(bytes: &Vec<u8>, a: usize, b: usize) -> (r: bool)
    requires
        a <= b <= bytes@.len(),
    ensures
        r == (bytes@.subrange(a as int, b as int) == ip_bytes()),
{
    let r = b - a == 2 && bytes[a] == 105 && bytes[a + 1] == 112;
    proof {
        if r {
            assert(bytes@.subrange(a as int, b as int) =~= ip_bytes());
        } else {
            if bytes@.subrange(a as int, b as int) == ip_bytes() {
                assert(bytes@.subrange(a as int, b as int).len() == 2);
                assert(bytes@.subrange(a as int, b as int)[0] == 105u8);
                assert(bytes@.subrange(a as int, b as int)[1] == 112u8);
            }
        }
    }
    r
}

/// Whether `bytes[a..b]` is exactly the field name `servers`.
fn range_is_servers(bytes: &Vec<u8>, a: usize, b: usize) -> (r: bool)
    requires
        a <= b <= bytes@.len(),
    ensures
        r == (bytes@.subrange(a as int, b as int) == servers_bytes()),
{
    let r = b - a == 7 && bytes[a] == 115 && bytes[a + 1] == 101 && bytes[a + 2] == 114 && bytes[a
        + 3] == 118 && bytes[a + 4] == 101 && bytes[a + 5] == 114 && bytes[a + 6] == 115;
    proof {
        if r {
            assert(bytes@.subrange(a as int, b as int) =~= servers_bytes());
        } else {
            if bytes@.subrange(a as int, b as int) == servers_bytes() {
                assert(bytes@.subrange(a as int, b as int).len() == 7);
                assert(bytes@.subrange(a as int, b as int)[0] == 115u8);
                assert(bytes@.subrange(a as int, b as int)[1] == 101u8);
                assert(bytes@.subrange(a as int, b as int)[2] == 114u8);
                assert(bytes@.subrange(a as int, b as int)[3] == 118u8);
                assert(bytes@.subrange(a as int, b as int)[4] == 101u8);
                assert(bytes@.subrange(a as int, b as int)[5] == 114u8);
                assert(bytes@.subrange(a as int, b as int)[6] == 115u8);
            }
        }
    }
    r
}

#[verifier::loop_isolation(false)]
fn skip_payload(bytes: &Vec<u8>, i: usize, t: u8, d: u32) -> (r: Option<usize>)
    requires
        i <= bytes@.len(),
    ensures
        match r {
            Some(j) => spec_skip_payload(bytes@, i as int, t, d as nat) == Some(j as int) && i < j
                <= bytes@.len(),
            None => spec_skip_payload(bytes@, i as int, t, d as nat) is None,
        },
    decreases d,
{
    let len = bytes.len();
    if t == 1 {
        if len - i >= 1 {
            Some(i + 1)
        } else {
            None
        }
    } else if t == 2 {
        if len - i >= 2 {
            Some(i + 2)
        } else {
            None
        }
    } else if t == 3 || t == 5 {
        if len - i >= 4 {
            Some(i + 4)
        } else {
            None
        }
    } else if t == 4 || t == 6 {
        if len - i >= 8 {
            Some(i + 8)
        } else {
            None
        }
    } else if t == 7 || t == 11 || t == 12 {
        if len - i < 4 {
            return None;
        }
        let n = read_be32(bytes, i);
        if n >= 0x80000000 {
            return None;
        }
        let w: u64 = if t == 7 {
            1
        } else if t == 11 {
            4
        } else {
            8
        };
        let total: u64 = (n as u64) * w;
        if ((len - (i + 4)) as u64) < total {
            return None;
        }
        Some(i + 4 + (total as usize))
    } else if t == 8 {
        skip_nbt_string(bytes, i)
    } else if t == 9 {
        if d == 0 {
            return None;
        }
        if len - i < 5 {
            return None;
        }
        let et = bytes[i];
        let n = read_be32(bytes, i + 1);
        if n >= 0x80000000 {
            return None;
        }
        if n > 0 && (et == 0 || et > 12) {
            return None;
        }
        let ghost d2 = (d - 1) as nat;
        let mut j: usize = i + 5;
        let mut rem: u32 = n;
        loop
            invariant
                i + 5 <= j <= bytes@.len(),
                d >= 1,
                spec_skip_list(bytes@, i + 5, et, n as nat, d2) == spec_skip_list(
                    bytes@,
                    j as int,
                    et,
                    rem as nat,
                    d2,
                ),
                spec_skip_payload(bytes@, i as int, t, d as nat) == spec_skip_list(
                    bytes@,
                    i + 5,
                    et,
                    n as nat,
                    d2,
                ),
            decreases rem,
        {
            if rem == 0 {
                return Some(j);
            }
            match skip_payload(bytes, j, et, d - 1) {
                None => {
                    return None;
                },
                Some(j2) => {
                    j = j2;
                    rem = rem - 1;
                },
            }
        }
    } else if t == 10 {
        if d == 0 {
            return None;
        }
        let ghost d2 = (d - 1) as nat;
        let mut j: usize = i;
        loop
            invariant
                i <= j <= bytes@.len(),
                d >= 1,
                spec_skip_fields(bytes@, i as int, d2) == spec_skip_fields(bytes@, j as int, d2),
                spec_skip_payload(bytes@, i as int, t, d as nat) == spec_skip_fields(
                    bytes@,
                    i as int,
                    d2,
                ),
            decreases bytes@.len() - j,
        {
            if bytes.len() - j < 1 {
                return None;
            }
            let ft = bytes[j];
            if ft == 0 {
                return Some(j + 1);
            }
            if ft > 12 {
                return None;
            }
            match skip_nbt_string(bytes, j + 1) {
                None => {
                    return None;
                },
                Some(j2) => {
                    match skip_payload(bytes, j2, ft, d - 1) {
                        None => {
                            return None;
                        },
                        Some(j3) => {
                            j = j3;
                        },
                    }
                },
            }
        }
    } else {
        None
    }
}

/// The view of an optional captured string.
pub open spec fn opt_bytes_view(o: Option<Vec<u8>>) -> Option<Seq<u8>> {
    match o {
        Some(v) => Some(v@),
        None => None,
    }
}

/// The view of an optional captured entry list.
pub open spec fn opt_entries_view(o: Option<Vec<ServerEntry>>) -> Option<Seq<SpecServerEntry>> {
    match o {
        Some(v) => Some(entries_view(v@)),
        None => None,
    }
}

#[verifier::loop_isolation(false)]
fn parse_server_fields(bytes: &Vec<u8>, i: usize, d: u32) -> (r: Result<
    (ServerEntry, usize),
    DecodeError,
>)
    requires
        i <= bytes@.len(),
    ensures
        match r {
            Ok((e, j)) => spec_server_fields(bytes@, i as int, None, None, d as nat) == Some(
                ((e@.name, e@.address), j as int),
            ) && i < j <= bytes@.len(),
            Err(_) => spec_server_fields(bytes@, i as int, None, None, d as nat) is None,
        },
{
    let mut j: usize = i;
    let mut nm: Option<Vec<u8>> = None;
    let mut ipv: Option<Vec<u8>> = None;
    loop
        invariant
            i <= j <= bytes@.len(),
            spec_server_fields(bytes@, i as int, None, None, d as nat) == spec_server_fields(
                bytes@,
                j as int,
                opt_bytes_view(nm),
                opt_bytes_view(ipv),
                d as nat,
            ),
        decreases bytes@.len() - j,
    {
        if bytes.len() - j < 1 {
            return Err(DecodeError::Truncated { offset: j });
        }
        let t = bytes[j];
        if t == 0 {
            let missing_name = match nm {
                None => true,
                Some(_) => false,
            };
            match (nm, ipv) {
                (Some(a), Some(b)) => {
                    return Ok((ServerEntry { name: a, address: b }, j + 1));
                },
                _ => {
                    return Err(
                        DecodeError::MissingField {
                            field: if missing_name {
                                FieldName::Name
                            } else {
                                FieldName::Ip
                            },
                        },
                    );
                },
            }
        }
        if t > 12 {
            return Err(DecodeError::UnexpectedTag { offset: j, found: t });
        }
        match skip_nbt_string(bytes, j + 1) {
            None => {
                return Err(DecodeError::Truncated { offset: j + 1 });
            },
            Some(j2) => {
                let is_n = range_is_name(bytes, j + 3, j2);
                let is_i = range_is_ip(bytes, j + 3, j2);
                if is_n || is_i {
                    if t != 8 {
                        return Err(DecodeError::UnexpectedTag { offset: j, found: t });
                    }
                    match skip_nbt_string(bytes, j2) {
                        None => {
                            return Err(DecodeError::Truncated { offset: j2 });
                        },
                        Some(j3) => {
                            let content = copy_range(bytes, j2 + 2, j3);
                            if is_n {
                                if nm.is_none() {
                                    nm = Some(content);
                                }
                            } else {
                                if ipv.is_none() {
                                    ipv = Some(content);
                                }
                            }
                            j = j3;
                        },
                    }
                } else {
                    match skip_payload(bytes, j2, t, d) {
                        None => {
                            return Err(DecodeError::Truncated { offset: j2 });
                        },
                        Some(j3) => {
                            j = j3;
                        },
                    }
                }
            },
        }
    }
}

#[verifier::loop_isolation(false)]
fn parse_servers_list(bytes: &Vec<u8>, i: usize, d: u32) -> (r: Result<
    (Vec<ServerEntry>, usize),
    DecodeError,
>)
    requires
        i <= bytes@.len(),
    ensures
        match r {
            Ok((es, j)) => spec_servers_list(bytes@, i as int, d as nat) == Some(
                (entries_view(es@), j as int),
            ) && i < j <= bytes@.len(),
            Err(_) => spec_servers_list(bytes@, i as int, d as nat) is None,
        },
{
    let len = bytes.len();
    if len - i < 5 {
        return Err(DecodeError::Truncated { offset: i });
    }
    let et = bytes[i];
    let n = read_be32(bytes, i + 1);
    if n >= 0x80000000 {
        return Err(DecodeError::BadLength { offset: i + 1 });
    }
    if n > 0 && et != 10 {
        return Err(DecodeError::UnexpectedTag { offset: i, found: et });
    }
    let mut acc: Vec<ServerEntry> = Vec::new();
    let mut j: usize = i + 5;
    let mut rem: u32 = n;
    proof {
        assert(entries_view(acc@) =~= Seq::<SpecServerEntry>::empty());
    }
    loop
        invariant
            i + 5 <= j <= bytes@.len(),
            spec_server_elems(bytes@, i + 5, n as nat, Seq::empty(), d as nat)
                == spec_server_elems(bytes@, j as int, rem as nat, entries_view(acc@), d as nat),
        decreases rem,
    {
        if rem == 0 {
            return Ok((acc, j));
        }
        match parse_server_fields(bytes, j, d) {
            Err(e) => {
                return Err(e);
            },
            Ok((entry, j2)) => {
                let ghost prev = entries_view(acc@);
                let ghost ev = entry@;
                acc.push(entry);
                proof {
                    assert(entries_view(acc@) =~= prev.push(ev));
                }
                j = j2;
                rem = rem - 1;
            },
        }
    }
}

#[verifier::loop_isolation(false)]
fn parse_root_fields(bytes: &Vec<u8>, i: usize, d: u32) -> (r: Result<
    (Vec<ServerEntry>, usize),
    DecodeError,
>)
    requires
        i <= bytes@.len(),
    ensures
        match r {
            Ok((es, j)) => spec_root_fields(bytes@, i as int, None, d as nat) == Some(
                (entries_view(es@), j as int),
            ) && i < j <= bytes@.len(),
            Err(_) => spec_root_fields(bytes@, i as int, None, d as nat) is None,
        },
{
    let mut j: usize = i;
    let mut found: Option<Vec<ServerEntry>> = None;
    loop
        invariant
            i <= j <= bytes@.len(),
            spec_root_fields(bytes@, i as int, None, d as nat) == spec_root_fields(
                bytes@,
                j as int,
                opt_entries_view(found),
                d as nat,
            ),
        decreases bytes@.len() - j,
    {
        if bytes.len() - j < 1 {
            return Err(DecodeError::Truncated { offset: j });
        }
        let t = bytes[j];
        if t == 0 {
            match found {
                Some(es) => {
                    return Ok((es, j + 1));
                },
                None => {
                    return Err(DecodeError::MissingField { field: FieldName::Servers });
                },
            }
        }
        if t > 12 {
            return Err(DecodeError::UnexpectedTag { offset: j, found: t });
        }
        match skip_nbt_string(bytes, j + 1) {
            None => {
                return Err(DecodeError::Truncated { offset: j + 1 });
            },
            Some(j2) => {
                let is_srv = range_is_servers(bytes, j + 3, j2);
                if is_srv && found.is_none() {
                    if t != 9 {
                        return Err(DecodeError::UnexpectedTag { offset: j, found: t });
                    }
                    match parse_servers_list(bytes, j2, d) {
                        Err(e) => {
                            return Err(e);
                        },
                        Ok((es, j3)) => {
                            found = Some(es);
                            j = j3;
                        },
                    }
                } else {
                    match skip_payload(bytes, j2, t, d) {
                        None => {
                            return Err(DecodeError::Truncated { offset: j2 });
                        },
                        Some(j3) => {
                            j = j3;
                        },
                    }
                }
            },
        }
    }
}

/// The 16-bit length-prefixed encoding of a string payload.
pub open spec fn spec_encode_string(b: Seq<u8>) -> Seq<u8> {
    seq![(b.len() / 0x100) as u8, (b.len() % 0x100) as u8] + b
}

/// The encoding of one named string field: the string tag, the field name,
/// the value.
pub open spec fn spec_encode_field(fname: Seq<u8>, val: Seq<u8>) -> Seq<u8> {
    seq![8u8] + spec_encode_string(fname) + spec_encode_string(val)
}

/// The canonical encoding of one server entry: string fields `name` and
/// `ip`, then the end tag.
pub open spec fn spec_encode_entry(e: SpecServerEntry) -> Seq<u8> {
    spec_encode_field(name_bytes(), e.name) + spec_encode_field(ip_bytes(), e.address) + seq![0u8]
}

/// The canonical encoding of a run of server entries.
pub open spec fn spec_encode_entries(es: Seq<SpecServerEntry>) -> Seq<u8>
    decreases es.len(),
{
    if es.len() == 0 {
        Seq::empty()
    } else {
        spec_encode_entry(es[0]) + spec_encode_entries(es.skip(1))
    }
}

/// The four big-endian bytes of `n` (meaningful below 2^32).
pub open spec fn spec_be32_of(n: nat) -> Seq<u8> {
    seq![
        (n / 0x1000000 % 0x100) as u8,
        (n / 0x10000 % 0x100) as u8,
        (n / 0x100 % 0x100) as u8,
        (n % 0x100) as u8,
    ]
}

/// The canonical encoding of a whole server-list document: a root compound
/// with an empty name holding one `servers` list of entry compounds.
pub open spec fn spec_encode_servers(es: Seq<SpecServerEntry>) -> Seq<u8> {
    seq![10u8] + spec_encode_string(Seq::empty()) + seq![9u8] + spec_encode_string(servers_bytes())
        + seq![10u8] + spec_be32_of(es.len()) + spec_encode_entries(es) + seq![0u8]
}

proof fn lemma_embed(s: Seq<u8>, i: int, w: Seq<u8>, a: int, b: int)
    requires
        0 <= i,
        i + w.len() <= s.len(),
        s.subrange(i, i + w.len()) == w,
        0 <= a <= b <= w.len(),
    ensures
        s.subrange(i + a, i + b) == w.subrange(a, b),
{
    assert forall|k: int| 0 <= k < b - a implies s.subrange(i + a, i + b)[k] == w.subrange(a, b)[k] by {
        assert(s.subrange(i, i + w.len())[a + k] == s[i + a + k]);
    }
    assert(s.subrange(i + a, i + b) =~= w.subrange(a, b));
}

proof fn lemma_be32_value(s: Seq<u8>, i: int, n: nat)
    requires
        0 <= i,
        i + 4 <= s.len(),
        n < 0x100000000,
        s[i] == (n / 0x1000000 % 0x100) as u8,
        s[i + 1] == (n / 0x10000 % 0x100) as u8,
        s[i + 2] == (n / 0x100 % 0x100) as u8,
        s[i + 3] == (n % 0x100) as u8,
    ensures
        be32(s, i) == n,
{
    assert(n / 0x1000000 % 0x100 == n / 0x1000000);
    assert((n / 0x1000000) * 0x1000000 + (n / 0x10000 % 0x100) * 0x10000 + (n / 0x100
        % 0x100) * 0x100 + n % 0x100 == n) by (nonlinear_arith)
        requires
            n < 0x100000000,
    ;
}

proof fn lemma_string_parse_at(s: Seq<u8>, i: int, b: Seq<u8>)
    requires
        0 <= i,
        b.len() <= 0xFFFF,
        i + 2 + b.len() <= s.len(),
        s.subrange(i, i + 2 + b.len()) == spec_encode_string(b),
    ensures
        spec_nbt_string(s, i) == Some((b, i + 2 + b.len())),
{
    let w = spec_encode_string(b);
    assert(s[i] == w[0]);
    assert(s[i + 1] == w[1]);
    assert(w[0] == (b.len() / 0x100) as u8);
    assert(w[1] == (b.len() % 0x100) as u8);
    assert(be16(s, i) == (b.len() / 0x100) * 0x100 + b.len() % 0x100);
    assert((b.len() / 0x100) * 0x100 + b.len() % 0x100 == b.len());
    lemma_embed(s, i, w, 2, 2 + b.len() as int);
    assert(w.subrange(2, 2 + b.len() as int) =~= b);
}

proof fn lemma_field_parse(s: Seq<u8>, i: int, fname: Seq<u8>, val: Seq<u8>)
    requires
        0 <= i,
        fname.len() <= 0xFFFF,
        val.len() <= 0xFFFF,
        i + spec_encode_field(fname, val).len() <= s.len(),
        s.subrange(i, i + spec_encode_field(fname, val).len()) == spec_encode_field(fname, val),
    ensures
        s[i] == 8u8,
        spec_nbt_string(s, i + 1) == Some((fname, i + 3 + fname.len())),
        spec_nbt_string(s, i + 3 + fname.len()) == Some(
            (val, i + spec_encode_field(fname, val).len()),
        ),
{
    let w = spec_encode_field(fname, val);
    let f = fname.len() as int;
    assert(w.len() == 5 + f + val.len());
    assert(s[i] == w[0]);
    assert(w[0] == 8u8);
    lemma_embed(s, i, w, 1, 3 + f);
    assert(w.subrange(1, 3 + f) =~= spec_encode_string(fname));
    lemma_string_parse_at(s, i + 1, fname);
    lemma_embed(s, i, w, 3 + f, w.len() as int);
    assert(w.subrange(3 + f, w.len() as int) =~= spec_encode_string(val));
    lemma_string_parse_at(s, i + 3 + f, val);
}

#[verifier::rlimit(100)]
proof fn lemma_entry_parse(s: Seq<u8>, i: int, e: SpecServerEntry, d: nat)
    requires
        0 <= i,
        e.name.len() <= 0xFFFF,
        e.address.len() <= 0xFFFF,
        i + spec_encode_entry(e).len() <= s.len(),
        s.subrange(i, i + spec_encode_entry(e).len()) == spec_encode_entry(e),
    ensures
        spec_server_fields(s, i, None, None, d) == Some(
            ((e.name, e.address), i + spec_encode_entry(e).len()),
        ),
{
    let w = spec_encode_entry(e);
    let w1 = spec_encode_field(name_bytes(), e.name);
    let w2 = spec_encode_field(ip_bytes(), e.address);
    assert(w.len() == w1.len() + w2.len() + 1);
    let j = i + w1.len() as int;
    let end = i + w.len() as int;
    lemma_embed(s, i, w, 0, w1.len() as int);
    assert(w.subrange(0, w1.len() as int) =~= w1);
    lemma_field_parse(s, i, name_bytes(), e.name);
    lemma_embed(s, i, w, w1.len() as int, (w1.len() + w2.len()) as int);
    assert(w.subrange(w1.len() as int, (w1.len() + w2.len()) as int) =~= w2);
    lemma_field_parse(s, j, ip_bytes(), e.address);
    assert(s[end - 1] == w[w.len() - 1]);
    assert(w[w.len() - 1] == 0u8);
    assert(name_bytes() != ip_bytes());
    assert(spec_server_fields(s, end - 1, Some(e.name), Some(e.address), d) == Some(
        ((e.name, e.address), end),
    ));
    assert(spec_server_fields(s, j, Some(e.name), None, d) == Some(((e.name, e.address), end)));
    assert(spec_server_fields(s, i, None, None, d) == Some(((e.name, e.address), end)));
}

proof fn lemma_entries_parse(s: Seq<u8>, i: int, es: Seq<SpecServerEntry>, acc: Seq<
    SpecServerEntry,
>, d: nat)
    requires
        0 <= i,
        forall|k: int|
            0 <= k < es.len() ==> (#[trigger] es[k]).name.len() <= 0xFFFF && es[k].address.len()
                <= 0xFFFF,
        i + spec_encode_entries(es).len() <= s.len(),
        s.subrange(i, i + spec_encode_entries(es).len()) == spec_encode_entries(es),
    ensures
        spec_server_elems(s, i, es.len(), acc, d) == Some(
            (acc + es, i + spec_encode_entries(es).len()),
        ),
    decreases es.len(),
{
    let w = spec_encode_entries(es);
    if es.len() == 0 {
        assert(acc + es =~= acc);
    } else {
        let e = es[0];
        let we = spec_encode_entry(e);
        lemma_embed(s, i, w, 0, we.len() as int);
        assert(w.subrange(0, we.len() as int) =~= we);
        lemma_entry_parse(s, i, e, d);
        let j = i + we.len();
        lemma_embed(s, i, w, we.len() as int, w.len() as int);
        assert(w.subrange(we.len() as int, w.len() as int) =~= spec_encode_entries(es.skip(1)));
        lemma_entries_parse(s, j, es.skip(1), acc.push(e), d);
        assert(SpecServerEntry { name: e.name, address: e.address } == e);
        assert(acc.push(e) + es.skip(1) =~= acc + es);
    }
}

/// Law: decoding the canonical encoding of any list of entries whose
/// strings fit the format's length fields yields exactly those entries, in
/// order, verbatim.
#[verifier::rlimit(100)]
pub proof fn lemma_decode_encode_round_trip(es: Seq<SpecServerEntry>)
    requires
        es.len() < 0x80000000,
        forall|k: int|
            0 <= k < es.len() ==> (#[trigger] es[k]).name.len() <= 0xFFFF && es[k].address.len()
                <= 0xFFFF,
    ensures
        spec_decode_servers(spec_encode_servers(es)) == Some(es),
{
    let s = spec_encode_servers(es);
    let n = es.len();
    let wl = spec_encode_entries(es).len() as int;
    assert(s.len() == 19 + wl);
    assert(s[0] == 10u8);
    assert(s.subrange(1, 3) =~= spec_encode_string(Seq::empty()));
    lemma_string_parse_at(s, 1, Seq::empty());
    let d = (NBT_MAX_DEPTH - 1) as nat;
    // the servers field: tag 9, its name, then the list payload
    assert(s[3] == 9u8);
    assert(s.subrange(4, 13) =~= spec_encode_string(servers_bytes()));
    lemma_string_parse_at(s, 4, servers_bytes());
    assert(servers_bytes() != name_bytes());
    // the list payload: element type 10, the count, the entries
    assert(s[13] == 10u8);
    assert(s[14] == (n / 0x1000000 % 0x100) as u8);
    assert(s[15] == (n / 0x10000 % 0x100) as u8);
    assert(s[16] == (n / 0x100 % 0x100) as u8);
    assert(s[17] == (n % 0x100) as u8);
    lemma_be32_value(s, 14, n);
    assert(s.subrange(18, 18 + wl) =~= spec_encode_entries(es));
    lemma_entries_parse(s, 18, es, Seq::empty(), d);
    assert(Seq::<SpecServerEntry>::empty() + es =~= es);
    assert(spec_server_elems(s, 18, n, Seq::empty(), d) == Some((es, 18 + wl)));
    assert(spec_servers_list(s, 13, d) == Some((es, 18 + wl)));
    // the root compound closes right after the list, ending the document
    assert(s[18 + wl] == 0u8);
    assert(spec_root_fields(s, 18 + wl, Some(es), d) == Some((es, s.len() as int)));
    assert(spec_root_fields(s, 3, None, d) == Some((es, s.len() as int)));
    assert(spec_decode_servers(s) == Some(es));
}

// The lemmas below say that a parse that succeeds on a prefix of a buffer
// reads nothing past what it consumed: it succeeds identically on the whole
// buffer. Parsing being deterministic, a document and a proper prefix of it
// can therefore never both decode.
proof fn lemma_nbt_string_ext(s1: Seq<u8>, s2: Seq<u8>, i: int)
    requires
        s1.len() <= s2.len(),
        forall|k: int| 0 <= k < s1.len() ==> s1[k] == s2[k],
        spec_nbt_string(s1, i) is Some,
    ensures
        spec_nbt_string(s2, i) == spec_nbt_string(s1, i),
{
    assert(be16(s1, i) == be16(s2, i));
    let n = be16(s1, i) as int;
    assert(s2.subrange(i + 2, i + 2 + n) =~= s1.subrange(i + 2, i + 2 + n));
}

proof fn lemma_skip_payload_ext(s1: Seq<u8>, s2: Seq<u8>, i: int, t: u8, d: nat)
    requires
        s1.len() <= s2.len(),
        forall|k: int| 0 <= k < s1.len() ==> s1[k] == s2[k],
        spec_skip_payload(s1, i, t, d) is Some,
    ensures
        spec_skip_payload(s2, i, t, d) == spec_skip_payload(s1, i, t, d),
    decreases d, s1.len() - i, 0int,
{
    if t == 7 || t == 11 || t == 12 {
        assert(be32(s1, i) == be32(s2, i));
    } else if t == 8 {
        lemma_nbt_string_ext(s1, s2, i);
    } else if t == 9 {
        assert(s1[i] == s2[i]);
        assert(be32(s1, i + 1) == be32(s2, i + 1));
        let et = s1[i];
        let n = be32(s1, i + 1) as int;
        lemma_skip_list_ext(s1, s2, i + 5, et, n as nat, (d - 1) as nat);
    } else if t == 10 {
        lemma_skip_fields_ext(s1, s2, i, (d - 1) as nat);
    }
}

proof fn lemma_skip_list_ext(s1: Seq<u8>, s2: Seq<u8>, i: int, et: u8, n: nat, d: nat)
    requires
        s1.len() <= s2.len(),
        forall|k: int| 0 <= k < s1.len() ==> s1[k] == s2[k],
        spec_skip_list(s1, i, et, n, d) is Some,
    ensures
        spec_skip_list(s2, i, et, n, d) == spec_skip_list(s1, i, et, n, d),
    decreases d, s1.len() - i, 1int,
{
    if n > 0 {
        lemma_skip_payload_ext(s1, s2, i, et, d);
        let j = spec_skip_payload(s1, i, et, d).unwrap();
        lemma_skip_list_ext(s1, s2, j, et, (n - 1) as nat, d);
    }
}

proof fn lemma_skip_fields_ext(s1: Seq<u8>, s2: Seq<u8>, i: int, d: nat)
    requires
        s1.len() <= s2.len(),
        forall|k: int| 0 <= k < s1.len() ==> s1[k] == s2[k],
        spec_skip_fields(s1, i, d) is Some,
    ensures
        spec_skip_fields(s2, i, d) == spec_skip_fields(s1, i, d),
    decreases d, s1.len() - i, 1int,
{
    assert(s1[i] == s2[i]);
    let t = s1[i];
    if t != 0 {
        lemma_nbt_string_ext(s1, s2, i + 1);
        let (_f, j) = spec_nbt_string(s1, i + 1).unwrap();
        lemma_skip_payload_ext(s1, s2, j, t, d);
        let j2 = spec_skip_payload(s1, j, t, d).unwrap();
        lemma_skip_fields_ext(s1, s2, j2, d);
    }
}

proof fn lemma_server_fields_ext(
    s1: Seq<u8>,
    s2: Seq<u8>,
    i: int,
    nm: Option<Seq<u8>>,
    ip: Option<Seq<u8>>,
    d: nat,
)
    requires
        s1.len() <= s2.len(),
        forall|k: int| 0 <= k < s1.len() ==> s1[k] == s2[k],
        spec_server_fields(s1, i, nm, ip, d) is Some,
    ensures
        spec_server_fields(s2, i, nm, ip, d) == spec_server_fields(s1, i, nm, ip, d),
    decreases d, s1.len() - i, 1int,
{
    assert(s1[i] == s2[i]);
    let t = s1[i];
    if t != 0 {
        lemma_nbt_string_ext(s1, s2, i + 1);
        let (fname, j) = spec_nbt_string(s1, i + 1).unwrap();
        if fname == name_bytes() || fname == ip_bytes() {
            lemma_nbt_string_ext(s1, s2, j);
            let (v, j2) = spec_nbt_string(s1, j).unwrap();
            if fname == name_bytes() {
                let nm2 = if nm is None {
                    Some(v)
                } else {
                    nm
                };
                lemma_server_fields_ext(s1, s2, j2, nm2, ip, d);
            } else {
                let ip2 = if ip is None {
                    Some(v)
                } else {
                    ip
                };
                lemma_server_fields_ext(s1, s2, j2, nm, ip2, d);
            }
        } else {
            lemma_skip_payload_ext(s1, s2, j, t, d);
            let j2 = spec_skip_payload(s1, j, t, d).unwrap();
            lemma_server_fields_ext(s1, s2, j2, nm, ip, d);
        }
    }
}

proof fn lemma_server_elems_ext(
    s1: Seq<u8>,
    s2: Seq<u8>,
    i: int,
    n: nat,
    acc: Seq<SpecServerEntry>,
    d: nat,
)
    requires
        s1.len() <= s2.len(),
        forall|k: int| 0 <= k < s1.len() ==> s1[k] == s2[k],
        spec_server_elems(s1, i, n, acc, d) is Some,
    ensures
        spec_server_elems(s2, i, n, acc, d) == spec_server_elems(s1, i, n, acc, d),
    decreases d, s1.len() - i, 2int,
{
    if n > 0 {
        lemma_server_fields_ext(s1, s2, i, None, None, d);
        let ((a, b), j) = spec_server_fields(s1, i, None, None, d).unwrap();
        lemma_server_elems_ext(
            s1,
            s2,
            j,
            (n - 1) as nat,
            acc.push(SpecServerEntry { name: a, address: b }),
            d,
        );
    }
}

proof fn lemma_servers_list_ext(s1: Seq<u8>, s2: Seq<u8>, i: int, d: nat)
    requires
        s1.len() <= s2.len(),
        forall|k: int| 0 <= k < s1.len() ==> s1[k] == s2[k],
        spec_servers_list(s1, i, d) is Some,
    ensures
        spec_servers_list(s2, i, d) == spec_servers_list(s1, i, d),
    decreases d, s1.len() - i, 3int,
{
    assert(s1[i] == s2[i]);
    assert(be32(s1, i + 1) == be32(s2, i + 1));
    let n = be32(s1, i + 1) as int;
    lemma_server_elems_ext(s1, s2, i + 5, n as nat, Seq::empty(), d);
}

proof fn lemma_root_fields_ext(
    s1: Seq<u8>,
    s2: Seq<u8>,
    i: int,
    found: Option<Seq<SpecServerEntry>>,
    d: nat,
)
    requires
        s1.len() <= s2.len(),
        forall|k: int| 0 <= k < s1.len() ==> s1[k] == s2[k],
        spec_root_fields(s1, i, found, d) is Some,
    ensures
        spec_root_fields(s2, i, found, d) == spec_root_fields(s1, i, found, d),
    decreases d, s1.len() - i, 4int,
{
    assert(s1[i] == s2[i]);
    let t = s1[i];
    if t != 0 {
        lemma_nbt_string_ext(s1, s2, i + 1);
        let (fname, j) = spec_nbt_string(s1, i + 1).unwrap();
        if fname == servers_bytes() && found is None {
            lemma_servers_list_ext(s1, s2, j, d);
            let (es, j2) = spec_servers_list(s1, j, d).unwrap();
            lemma_root_fields_ext(s1, s2, j2, Some(es), d);
        } else {
            lemma_skip_payload_ext(s1, s2, j, t, d);
            let j2 = spec_skip_payload(s1, j, t, d).unwrap();
            lemma_root_fields_ext(s1, s2, j2, found, d);
        }
    }
}

/// Law: any document the decoder accepts stops decoding when its last byte
/// is removed — a truncated file never yields entries.
pub proof fn lemma_truncated_fails(s: Seq<u8>)
    requires
        spec_decode_servers(s) is Some,
    ensures
        spec_decode_servers(s.take(s.len() - 1)) is None,
{
    let s1 = s.take(s.len() - 1);
    let d = (NBT_MAX_DEPTH - 1) as nat;
    if spec_decode_servers(s1) is Some {
        assert(forall|k: int| 0 <= k < s1.len() ==> s1[k] == s[k]);
        let (_c, j1) = spec_nbt_string(s1, 1).unwrap();
        lemma_nbt_string_ext(s1, s, 1);
        let (_es1, e1) = spec_root_fields(s1, j1, None, d).unwrap();
        assert(e1 == s1.len());
        lemma_root_fields_ext(s1, s, j1, None, d);
        assert(spec_root_fields(s, j1, None, d) == Some((_es1, e1)));
        assert(false);
    }
}

/// Decode a server-list document: a root compound whose `servers` list
/// holds the saved entries. Succeeds exactly on the byte sequences the
/// grammar above accepts, yielding every entry in file order with `name`
/// and `ip` taken verbatim; anything else — truncation, a bad tag, a
/// negative length, a missing field, trailing bytes — is a `DecodeError`.
pub fn decode_servers(bytes: &Vec<u8>) -> (r: Result<ServerList, DecodeError>)
    ensures
        match r {
            Ok(list) => spec_decode_servers(bytes@) == Some(entries_view(list.entries@)),
            Err(_) => spec_decode_servers(bytes@) is None,
        },
{
    if bytes.len() < 1 {
        return Err(DecodeError::Truncated { offset: 0 });
    }
    let t0 = bytes[0];
    if t0 != 10 {
        return Err(DecodeError::UnexpectedTag { offset: 0, found: t0 });
    }
    match skip_nbt_string(bytes, 1) {
        None => Err(DecodeError::Truncated { offset: 1 }),
        Some(j) => match parse_root_fields(bytes, j, NBT_MAX_DEPTH - 1) {
            Err(e) => Err(e),
            Ok((es, end)) => {
                if end == bytes.len() {
                    Ok(ServerList { entries: es })
                } else {
                    Err(DecodeError::TrailingData { offset: end })
                }
            },
        },
    }
}

} // verus!
