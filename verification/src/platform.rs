use vstd::prelude::*;

verus! {

/// The host platform category, as far as the game data directory cares.
#[derive(Clone, Copy, Debug, PartialEq, Eq, Structural)]
pub enum Platform {
    Windows,
    MacOs,
    Other,
}

/// The well-known base directory the instance directory lives under.
#[derive(Clone, Copy, Debug, PartialEq, Eq, Structural)]
pub enum BaseDirKind {
    /// The user's data directory.
    Data,
    /// The user's home directory.
    Home,
}

/// The bytes of the directory name `minecraft`.
pub open spec fn minecraft_name() -> Seq<u8> {
    seq![109u8, 105u8, 110u8, 101u8, 99u8, 114u8, 97u8, 102u8, 116u8]
}

/// The bytes of the directory name `.minecraft`.
pub open spec fn dot_minecraft_name() -> Seq<u8> {
    seq![46u8] + minecraft_name()
}

/// Where the standard game data directory lives on platform `p`: under the
/// data directory on Windows and macOS, under the home directory elsewhere;
/// named `minecraft` on macOS and `.minecraft` everywhere else.
pub fn minecraft_dir_location(p: Platform) -> (r: (BaseDirKind, Vec<u8>))
    ensures
        r.0 == (if p == Platform::Windows || p == Platform::MacOs {
            BaseDirKind::Data
        } else {
            BaseDirKind::Home
        }),
        r.1@ == (if p == Platform::MacOs {
            minecraft_name()
        } else {
            dot_minecraft_name()
        }),
{
    let kind = match p {
        Platform::Windows => BaseDirKind::Data,
        Platform::MacOs => BaseDirKind::Data,
        Platform::Other => BaseDirKind::Home,
    };
    let mut name: Vec<u8> = Vec::new();
    match p {
        Platform::MacOs => {},
        _ => {
            name.push(46);
        },
    }
    name.push(109);
    name.push(105);
    name.push(110);
    name.push(101);
    name.push(99);
    name.push(114);
    name.push(97);
    name.push(102);
    name.push(116);
    proof {
        if p == Platform::MacOs {
            assert(name@ =~= minecraft_name());
        } else {
            assert(name@ =~= dot_minecraft_name());
        }
    }
    (kind, name)
}

} // verus!
