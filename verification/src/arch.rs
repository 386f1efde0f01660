//! Architecture tags.

use vstd::prelude::*;

verus! {

/// Target platform tag of a package or an index; `Source` is the
/// reserved sentinel for source packages and architecture-less
/// findings.  An unrecognized tag is carried as `Other`.
#[derive(Debug)]
pub enum Architecture {
    Amd64,
    Arm64,
    Armhf,
    I386,
    Ppc64el,
    Riscv64,
    S390x,
    All,
    Source,
    Any,
    X32,
    Other(String),
}

/// Spec-level value of an architecture tag.
pub enum ArchView {
    Amd64,
    Arm64,
    Armhf,
    I386,
    Ppc64el,
    Riscv64,
    S390x,
    All,
    Source,
    Any,
    X32,
    Other(Seq<char>),
}

impl View for Architecture {
    type V = ArchView;

    open spec fn view(&self) -> ArchView {
        match self {
            Architecture::Amd64 => ArchView::Amd64,
            Architecture::Arm64 => ArchView::Arm64,
            Architecture::Armhf => ArchView::Armhf,
            Architecture::I386 => ArchView::I386,
            Architecture::Ppc64el => ArchView::Ppc64el,
            Architecture::Riscv64 => ArchView::Riscv64,
            Architecture::S390x => ArchView::S390x,
            Architecture::All => ArchView::All,
            Architecture::Source => ArchView::Source,
            Architecture::Any => ArchView::Any,
            Architecture::X32 => ArchView::X32,
            Architecture::Other(s) => ArchView::Other(s@),
        }
    }
}

impl DeepView for Architecture {
    type V = ArchView;

    open spec fn deep_view(&self) -> ArchView {
        self.view()
    }
}

/// The tag a name denotes: the canonical lower-case names map to their
/// variants, anything else is carried verbatim as `Other`.
pub open spec fn parse_arch(s: Seq<char>) -> ArchView {
    if s == "amd64"@ {
        ArchView::Amd64
    } else if s == "arm64"@ {
        ArchView::Arm64
    } else if s == "armhf"@ {
        ArchView::Armhf
    } else if s == "i386"@ {
        ArchView::I386
    } else if s == "ppc64el"@ {
        ArchView::Ppc64el
    } else if s == "riscv64"@ {
        ArchView::Riscv64
    } else if s == "s390x"@ {
        ArchView::S390x
    } else if s == "all"@ {
        ArchView::All
    } else if s == "source"@ {
        ArchView::Source
    } else if s == "any"@ {
        ArchView::Any
    } else if s == "x32"@ {
        ArchView::X32
    } else {
        ArchView::Other(s)
    }
}

/// String equality by characters.
pub fn str_eq(a: &str, b: &str) -> (r: bool)
    ensures
        r == (a@ == b@),
{
    let na = a.unicode_len();
    let nb = b.unicode_len();
    if na != nb {
        proof {
            assert(a@ != b@);
        }
        return false;
    }
    let mut i: usize = 0;
    while i < na
        invariant
            na == a@.len() == b@.len(),
            i <= na,
            forall|j: int| 0 <= j < i ==> a@[j] == b@[j],
        decreases na - i,
    {
        if a.get_char(i) != b.get_char(i) {
            proof {
                assert(a@ != b@);
            }
            return false;
        }
        i = i + 1;
    }
    proof {
        assert(a@ =~= b@);
    }
    true
}

impl Architecture {
    /// Parse an architecture name, as `parse_arch`.
    pub fn from_str(s: &str) -> (r: Architecture)
        ensures
            r@ == parse_arch(s@),
    {
        if str_eq(s, "amd64") {
            Architecture::Amd64
        } else if str_eq(s, "arm64") {
            Architecture::Arm64
        } else if str_eq(s, "armhf") {
            Architecture::Armhf
        } else if str_eq(s, "i386") {
            Architecture::I386
        } else if str_eq(s, "ppc64el") {
            Architecture::Ppc64el
        } else if str_eq(s, "riscv64") {
            Architecture::Riscv64
        } else if str_eq(s, "s390x") {
            Architecture::S390x
        } else if str_eq(s, "all") {
            Architecture::All
        } else if str_eq(s, "source") {
            Architecture::Source
        } else if str_eq(s, "any") {
            Architecture::Any
        } else if str_eq(s, "x32") {
            Architecture::X32
        } else {
            Architecture::Other(s.to_owned())
        }
    }

    /// Equality of two tags.
    #[verifier::rlimit(60)]
    pub fn same_as(&self, other: &Architecture) -> (r: bool)
        ensures
            r == (self@ == other@),
    {
        match self {
            Architecture::Amd64 => match other { Architecture::Amd64 => true, _ => false },
            Architecture::Arm64 => match other { Architecture::Arm64 => true, _ => false },
            Architecture::Armhf => match other { Architecture::Armhf => true, _ => false },
            Architecture::I386 => match other { Architecture::I386 => true, _ => false },
            Architecture::Ppc64el => match other { Architecture::Ppc64el => true, _ => false },
            Architecture::Riscv64 => match other { Architecture::Riscv64 => true, _ => false },
            Architecture::S390x => match other { Architecture::S390x => true, _ => false },
            Architecture::All => match other { Architecture::All => true, _ => false },
            Architecture::Source => match other { Architecture::Source => true, _ => false },
            Architecture::Any => match other { Architecture::Any => true, _ => false },
            Architecture::X32 => match other { Architecture::X32 => true, _ => false },
            Architecture::Other(a) => match other {
                Architecture::Other(b) => str_eq(a.as_str(), b.as_str()),
                _ => false,
            },
        }
    }

    /// Whether this is the `Source` sentinel.
    pub fn is_source(&self) -> (r: bool)
        ensures
            r == (self@ == ArchView::Source),
    {
        match self {
            Architecture::Source => true,
            _ => false,
        }
    }

    /// A copy of the tag.
    pub fn duplicate(&self) -> (r: Architecture)
        ensures
            r@ == self@,
    {
        match self {
            Architecture::Amd64 => Architecture::Amd64,
            Architecture::Arm64 => Architecture::Arm64,
            Architecture::Armhf => Architecture::Armhf,
            Architecture::I386 => Architecture::I386,
            Architecture::Ppc64el => Architecture::Ppc64el,
            Architecture::Riscv64 => Architecture::Riscv64,
            Architecture::S390x => Architecture::S390x,
            Architecture::All => Architecture::All,
            Architecture::Source => Architecture::Source,
            Architecture::Any => Architecture::Any,
            Architecture::X32 => Architecture::X32,
            Architecture::Other(s) => Architecture::Other(s.clone()),
        }
    }
}

} // verus!
