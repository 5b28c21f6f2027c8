//! Platform classification: host release identity to a closed family tag.
use vstd::prelude::*;

verus! {

/// The platform families that rules can be scoped to.
#[derive(Debug, Clone, PartialEq, Eq)]
pub enum OsType {
    Arch,
    Ubuntu,
    Debian,
    Fedora,
    OpenSuse,
    Unknown(String),
}

pub open spec fn is_arch_id(id: Seq<char>) -> bool {
    id == "arch"@ || id == "manjaro"@ || id == "endeavouros"@
}

pub open spec fn is_ubuntu_id(id: Seq<char>) -> bool {
    id == "ubuntu"@ || id == "pop"@ || id == "mint"@
}

pub open spec fn is_debian_id(id: Seq<char>) -> bool {
    id == "debian"@
}

pub open spec fn is_fedora_id(id: Seq<char>) -> bool {
    id == "fedora"@ || id == "centos"@ || id == "rhel"@
}

pub open spec fn is_opensuse_id(id: Seq<char>) -> bool {
    id == "opensuse"@ || id == "opensuse-tumbleweed"@ || id == "opensuse-leap"@ || id == "suse"@
}

/// The family that a release identifier belongs to; an identifier outside the
/// lookup keeps its raw text.
pub open spec fn family_of(os: OsType, id: Seq<char>) -> bool {
    if is_arch_id(id) {
        os is Arch
    } else if is_ubuntu_id(id) {
        os is Ubuntu
    } else if is_debian_id(id) {
        os is Debian
    } else if is_fedora_id(id) {
        os is Fedora
    } else if is_opensuse_id(id) {
        os is OpenSuse
    } else {
        match os {
            OsType::Unknown(raw) => raw@ == id,
            _ => false,
        }
    }
}

/// Text equality of two string slices.
pub fn same_text(a: &str, b: &str) -> (r: bool)
    ensures
        r == (a@ == b@),
{
    let x = a.to_owned();
    let y = b.to_owned();
    x == y
}

/// Classifies the host from its release identifier (`ID=` of os-release).
/// `None` stands for a host whose identity could not be read; it yields
/// `Unknown("unknown")` rather than an error.
pub fn detect_os(release_id: Option<&str>) -> (r: OsType)
    ensures
        match release_id {
            Some(id) => family_of(r, id@),
            None => match r {
                OsType::Unknown(raw) => raw@ == "unknown"@,
                _ => false,
            },
        },
{
    match release_id {
        None => OsType::Unknown("unknown".to_owned()),
        Some(id) => {
            if same_text(id, "arch") || same_text(id, "manjaro") || same_text(id, "endeavouros") {
                OsType::Arch
            } else if same_text(id, "ubuntu") || same_text(id, "pop") || same_text(id, "mint") {
                OsType::Ubuntu
            } else if same_text(id, "debian") {
                OsType::Debian
            } else if same_text(id, "fedora") || same_text(id, "centos") || same_text(id, "rhel") {
                OsType::Fedora
            } else if same_text(id, "opensuse") || same_text(id, "opensuse-tumbleweed")
                || same_text(id, "opensuse-leap") || same_text(id, "suse") {
                OsType::OpenSuse
            } else {
                OsType::Unknown(id.to_owned())
            }
        },
    }
}

/// The rule tag that selects rules for a platform. An unknown platform
/// matches only wildcard rules, so its tag is the wildcard itself.
pub open spec fn os_tag(os: OsType) -> Seq<char> {
    match os {
        OsType::Arch => "arch"@,
        OsType::Ubuntu => "ubuntu"@,
        OsType::Debian => "debian"@,
        OsType::Fedora => "fedora"@,
        OsType::OpenSuse => "opensuse"@,
        OsType::Unknown(_) => "any"@,
    }
}

impl OsType {
    /// The canonical rule tag of this platform.
    pub fn tag(&self) -> (r: String)
        ensures
            r@ == os_tag(*self),
    {
        match self {
            OsType::Arch => "arch".to_owned(),
            OsType::Ubuntu => "ubuntu".to_owned(),
            OsType::Debian => "debian".to_owned(),
            OsType::Fedora => "fedora".to_owned(),
            OsType::OpenSuse => "opensuse".to_owned(),
            OsType::Unknown(_) => "any".to_owned(),
        }
    }
}

} // verus!
