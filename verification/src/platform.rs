//! The payment platform carried by a funding link. The forge names platforms
//! with fixed upper-case tokens; unrecognized tokens are kept verbatim so
//! that new platforms survive a round through this crate.

use crate::text::{eq_uppercased, matches_uppercased, seq_char_cmp, str_cmp};
use vstd::prelude::*;

verus! {

/// A funding platform: one of the forge's fixed set, or any other token,
/// preserved as it came.
#[derive(Clone, Debug, Hash, PartialEq, Eq)]
pub enum Platform {
    CommunityBridge,
    Custom,
    Github,
    IssueHunt,
    Kofi,
    Liberapay,
    OpenCollective,
    Otechie,
    Patreon,
    Tidelift,
    Other(String),
}

/// The mathematical value of a `Platform`.
pub enum PlatformV {
    CommunityBridge,
    Custom,
    Github,
    IssueHunt,
    Kofi,
    Liberapay,
    OpenCollective,
    Otechie,
    Patreon,
    Tidelift,
    Other(Seq<char>),
}

impl View for Platform {
    type V = PlatformV;

    open spec fn view(&self) -> PlatformV {
        match self {
            Platform::CommunityBridge => PlatformV::CommunityBridge,
            Platform::Custom => PlatformV::Custom,
            Platform::Github => PlatformV::Github,
            Platform::IssueHunt => PlatformV::IssueHunt,
            Platform::Kofi => PlatformV::Kofi,
            Platform::Liberapay => PlatformV::Liberapay,
            Platform::OpenCollective => PlatformV::OpenCollective,
            Platform::Otechie => PlatformV::Otechie,
            Platform::Patreon => PlatformV::Patreon,
            Platform::Tidelift => PlatformV::Tidelift,
            Platform::Other(s) => PlatformV::Other(s@),
        }
    }
}

/// The platform a token names, matched case-insensitively against the
/// forge's fixed upper-case spellings; anything else stays verbatim.
pub open spec fn platform_of(s: Seq<char>) -> PlatformV {
    if matches_uppercased(s, "COMMUNITY_BRIDGE"@) {
        PlatformV::CommunityBridge
    } else if matches_uppercased(s, "CUSTOM"@) {
        PlatformV::Custom
    } else if matches_uppercased(s, "GITHUB"@) {
        PlatformV::Github
    } else if matches_uppercased(s, "ISSUEHUNT"@) {
        PlatformV::IssueHunt
    } else if matches_uppercased(s, "KO_FI"@) {
        PlatformV::Kofi
    } else if matches_uppercased(s, "LIBERAPAY"@) {
        PlatformV::Liberapay
    } else if matches_uppercased(s, "OPEN_COLLECTIVE"@) {
        PlatformV::OpenCollective
    } else if matches_uppercased(s, "OTECHIE"@) {
        PlatformV::Otechie
    } else if matches_uppercased(s, "PATREON"@) {
        PlatformV::Patreon
    } else if matches_uppercased(s, "TIDELIFT"@) {
        PlatformV::Tidelift
    } else {
        PlatformV::Other(s)
    }
}

impl Platform {
    /// Maps a platform token to its `Platform`, ignoring ASCII case.
    pub fn from_text(s: &str) -> (p: Platform)
        ensures
            p@ == platform_of(s@),
    {
        if eq_uppercased(s, "COMMUNITY_BRIDGE") {
            Platform::CommunityBridge
        } else if eq_uppercased(s, "CUSTOM") {
            Platform::Custom
        } else if eq_uppercased(s, "GITHUB") {
            Platform::Github
        } else if eq_uppercased(s, "ISSUEHUNT") {
            Platform::IssueHunt
        } else if eq_uppercased(s, "KO_FI") {
            Platform::Kofi
        } else if eq_uppercased(s, "LIBERAPAY") {
            Platform::Liberapay
        } else if eq_uppercased(s, "OPEN_COLLECTIVE") {
            Platform::OpenCollective
        } else if eq_uppercased(s, "OTECHIE") {
            Platform::Otechie
        } else if eq_uppercased(s, "PATREON") {
            Platform::Patreon
        } else if eq_uppercased(s, "TIDELIFT") {
            Platform::Tidelift
        } else {
            Platform::Other(s.to_owned())
        }
    }

    /// An owned copy of the platform.
    pub fn duplicate(&self) -> (r: Platform)
        ensures
            r@ == self@,
    {
        match self {
            Platform::CommunityBridge => Platform::CommunityBridge,
            Platform::Custom => Platform::Custom,
            Platform::Github => Platform::Github,
            Platform::IssueHunt => Platform::IssueHunt,
            Platform::Kofi => Platform::Kofi,
            Platform::Liberapay => Platform::Liberapay,
            Platform::OpenCollective => Platform::OpenCollective,
            Platform::Otechie => Platform::Otechie,
            Platform::Patreon => Platform::Patreon,
            Platform::Tidelift => Platform::Tidelift,
            Platform::Other(s) => Platform::Other(s.clone()),
        }
    }

    /// Position of the variant in the fixed ordering; `Other` sorts last.
    pub fn rank(&self) -> (r: usize)
        ensures
            r as int == platform_rank(self@),
    {
        match self {
            Platform::CommunityBridge => 0,
            Platform::Custom => 1,
            Platform::Github => 2,
            Platform::IssueHunt => 3,
            Platform::Kofi => 4,
            Platform::Liberapay => 5,
            Platform::OpenCollective => 6,
            Platform::Otechie => 7,
            Platform::Patreon => 8,
            Platform::Tidelift => 9,
            Platform::Other(_) => 10,
        }
    }

    /// Three-way comparison in declaration order, `Other` values by token.
    pub fn cmp_with(&self, other: &Platform) -> (r: i8)
        ensures
            r as int == platform_cmp(self@, other@),
    {
        let ra = self.rank();
        let rb = other.rank();
        if ra < rb {
            -1
        } else if ra > rb {
            1
        } else {
            match (self, other) {
                (Platform::Other(x), Platform::Other(y)) => str_cmp(x.as_str(), y.as_str()),
                _ => 0,
            }
        }
    }
}

/// Position of a platform in the fixed ordering.
pub open spec fn platform_rank(p: PlatformV) -> int {
    match p {
        PlatformV::CommunityBridge => 0,
        PlatformV::Custom => 1,
        PlatformV::Github => 2,
        PlatformV::IssueHunt => 3,
        PlatformV::Kofi => 4,
        PlatformV::Liberapay => 5,
        PlatformV::OpenCollective => 6,
        PlatformV::Otechie => 7,
        PlatformV::Patreon => 8,
        PlatformV::Tidelift => 9,
        PlatformV::Other(_) => 10,
    }
}

/// Three-way ordering of platforms: by variant, then by the verbatim token.
pub open spec fn platform_cmp(a: PlatformV, b: PlatformV) -> int {
    if platform_rank(a) < platform_rank(b) {
        -1
    } else if platform_rank(a) > platform_rank(b) {
        1
    } else {
        match (a, b) {
            (PlatformV::Other(x), PlatformV::Other(y)) => seq_char_cmp(x, y),
            _ => 0,
        }
    }
}

pub proof fn lemma_platform_cmp_refl(a: PlatformV)
    ensures
        platform_cmp(a, a) == 0,
{
    if let PlatformV::Other(x) = a {
        crate::text::lemma_seq_char_cmp_refl(x);
    }
}

pub proof fn lemma_platform_cmp_eq(a: PlatformV, b: PlatformV)
    requires
        platform_cmp(a, b) == 0,
    ensures
        a == b,
{
    if let PlatformV::Other(x) = a {
        if let PlatformV::Other(y) = b {
            crate::text::lemma_seq_char_cmp_eq(x, y);
        }
    }
}

pub proof fn lemma_platform_cmp_antisym(a: PlatformV, b: PlatformV)
    ensures
        platform_cmp(a, b) == -platform_cmp(b, a),
{
    if let PlatformV::Other(x) = a {
        if let PlatformV::Other(y) = b {
            crate::text::lemma_seq_char_cmp_antisym(x, y);
        }
    }
}

pub proof fn lemma_platform_cmp_trans(a: PlatformV, b: PlatformV, c: PlatformV)
    requires
        platform_cmp(a, b) <= 0,
        platform_cmp(b, c) <= 0,
    ensures
        platform_cmp(a, c) <= 0,
        platform_cmp(a, b) < 0 || platform_cmp(b, c) < 0 ==> platform_cmp(a, c) < 0,
{
    if let PlatformV::Other(x) = a {
        if let PlatformV::Other(y) = b {
            if let PlatformV::Other(z) = c {
                crate::text::lemma_seq_char_cmp_trans(x, y, z);
            }
        }
    }
}

} // verus!
