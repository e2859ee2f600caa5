//! Provider evidence behind a rule, and the rule keys it is filed under.
use vstd::prelude::*;

use crate::text::{chars_of, concat2, concat3, owned, str_eq};

verus! {

/// Provider-independent identity: the diagnostic code without its provider prefix.
#[derive(Debug, Clone, PartialEq, Eq, PartialOrd, Ord, Hash)]
pub struct RuleKey(String);

impl View for RuleKey {
    type V = Seq<char>;

    closed spec fn view(&self) -> Seq<char> {
        self.0@
    }
}

/// A rule key is `K-` or `S-` followed by at least one character.
pub open spec fn valid_rule_key(v: Seq<char>) -> bool {
    v.len() > 2 && (v[0] == 'K' || v[0] == 'S') && v[1] == '-'
}

/// The message for a text that is no rule key.
pub open spec fn invalid_rule_key_text(v: Seq<char>) -> Seq<char> {
    "invalid rule key '"@ + v + "'; expected K-* or S-*"@
}

/// The rule key inside a diagnostic code: the code must be `prefix`, `-`
/// and a valid rule key.
pub open spec fn rule_key_in_code(code: Seq<char>, prefix: Seq<char>) -> Option<Seq<char>> {
    if prefix.len() < code.len() && code.take(prefix.len() as int) == prefix && code[prefix.len() as int] == '-'
        && valid_rule_key(code.skip(prefix.len() as int + 1)) {
        Some(code.skip(prefix.len() as int + 1))
    } else {
        None
    }
}

impl RuleKey {
    /// Parse a rule key: `K-*` or `S-*`.
    pub fn parse(value: &str) -> (r: Result<Self, String>)
        ensures
            match r {
                Ok(k) => valid_rule_key(value@) && k@ == value@,
                Err(m) => !valid_rule_key(value@) && m@ == invalid_rule_key_text(value@),
            },
    {
        let c = chars_of(value);
        if c.len() > 2 && (c[0] == 'K' || c[0] == 'S') && c[1] == '-' {
            Ok(RuleKey(owned(value)))
        } else {
            Err(concat3("invalid rule key '", value, "'; expected K-* or S-*"))
        }
    }

    /// The rule key of the diagnostic `code` issued under `prefix`.
    pub fn from_code(code: &str, prefix: &str) -> (r: Option<Self>)
        ensures
            match r {
                Some(k) => rule_key_in_code(code@, prefix@) == Some(k@),
                None => rule_key_in_code(code@, prefix@) is None,
            },
    {
        let c = chars_of(code);
        let p = chars_of(prefix);
        if p.len() >= c.len() {
            return None;
        }
        let mut i: usize = 0;
        while i < p.len()
            invariant
                p.len() < c.len(),
                c@ == code@,
                p@ == prefix@,
                i <= p.len(),
                forall|j: int| 0 <= j < i ==> c@[j] == p@[j],
            decreases p.len() - i,
        {
            if c[i] != p[i] {
                assert(c@.take(p.len() as int)[i as int] != p@[i as int]);
                return None;
            }
            i = i + 1;
        }
        assert(c@.take(p.len() as int) =~= p@);
        if c[p.len()] != '-' {
            return None;
        }
        let n = p.len() + 1;
        let rest_len = c.len() - n;
        if rest_len > 2 && (c[n] == 'K' || c[n] == 'S') && c[n + 1] == '-' {
            let mut key = String::new();
            let mut k = n;
            while k < c.len()
                invariant
                    n <= k <= c.len(),
                    key@ == c@.subrange(n as int, k as int),
                decreases c.len() - k,
            {
                crate::text::push_char(&mut key, c[k]);
                assert(c@.subrange(n as int, k + 1) =~= c@.subrange(n as int, k as int).push(c@[k as int]));
                k = k + 1;
            }
            assert(c@.subrange(n as int, c.len() as int) =~= c@.skip(n as int));
            Some(RuleKey(key))
        } else {
            None
        }
    }

    /// The key's text.
    pub fn as_str(&self) -> (r: &str)
        ensures
            r@ == self@,
    {
        self.0.as_str()
    }
}

/// How well a provider's stance on a rule is established.
#[derive(Debug, Clone, Copy, PartialEq, Eq, Structural)]
pub enum EvidenceStatus {
    Documented,
    DocumentedExample,
    SdkTransform,
    LiveVerified,
    Inferred,
    Unknown,
}

impl EvidenceStatus {
    /// The status's name in snake case.
    pub open spec fn spec_name(self) -> Seq<char> {
        match self {
            EvidenceStatus::Documented => "documented"@,
            EvidenceStatus::DocumentedExample => "documented_example"@,
            EvidenceStatus::SdkTransform => "sdk_transform"@,
            EvidenceStatus::LiveVerified => "live_verified"@,
            EvidenceStatus::Inferred => "inferred"@,
            EvidenceStatus::Unknown => "unknown"@,
        }
    }

    /// The status's name in snake case.
    pub fn as_str(self) -> (r: &'static str)
        ensures
            r@ == self.spec_name(),
    {
        match self {
            EvidenceStatus::Documented => "documented",
            EvidenceStatus::DocumentedExample => "documented_example",
            EvidenceStatus::SdkTransform => "sdk_transform",
            EvidenceStatus::LiveVerified => "live_verified",
            EvidenceStatus::Inferred => "inferred",
            EvidenceStatus::Unknown => "unknown",
        }
    }
}

/// A cited source: a title and a URL.
#[derive(Debug, Clone, PartialEq, Eq)]
pub struct EvidenceSource {
    pub title: String,
    pub url: String,
}

/// The evidence for a provider's stance on a rule.
#[derive(Debug, Clone, PartialEq, Eq)]
pub struct ProviderEvidence {
    pub status: EvidenceStatus,
    pub sources: Vec<EvidenceSource>,
    pub basis: Option<String>,
    pub verified_at: Option<String>,
    pub verification_target: Option<String>,
}

/// The characters that `char::is_whitespace` accepts (Unicode `White_Space`).
pub open spec fn is_white_space(c: char) -> bool {
    let n = c as u32;
    (0x9 <= n <= 0xd) || n == 0x20 || n == 0x85 || n == 0xa0 || n == 0x1680 || (0x2000 <= n <= 0x200a)
        || n == 0x2028 || n == 0x2029 || n == 0x202f || n == 0x205f || n == 0x3000
}

/// `s` holds a character other than white space.
pub open spec fn not_blank(s: Seq<char>) -> bool {
    exists|i: int| 0 <= i < s.len() && !#[trigger] is_white_space(s[i])
}

/// A basis is given when it holds a character other than white space.
pub open spec fn has_basis_text(basis: Option<String>) -> bool {
    match basis {
        Some(b) => not_blank(b@),
        None => false,
    }
}

/// A well-formed source: a title and an `https://` URL.
pub open spec fn source_ok(s: EvidenceSource) -> bool {
    s.title@.len() > 0 && s.url@.len() >= 8 && s.url@.take(8) == "https://"@
}

/// What `ProviderEvidence::validate` decides, check by check.
pub open spec fn evidence_check(e: ProviderEvidence) -> Result<(), Seq<char>> {
    let basis = has_basis_text(e.basis);
    let sources = e.sources@;
    if exists|i: int| 0 <= i < sources.len() && !source_ok(#[trigger] sources[i]) {
        Err("sources require a title and canonical HTTPS URL"@)
    } else if (e.status == EvidenceStatus::Documented || e.status == EvidenceStatus::DocumentedExample
        || e.status == EvidenceStatus::SdkTransform) && sources.len() == 0 {
        Err(e.status.spec_name() + " evidence requires a source"@)
    } else if (e.status == EvidenceStatus::DocumentedExample || e.status == EvidenceStatus::SdkTransform
        || e.status == EvidenceStatus::Inferred || e.status == EvidenceStatus::Unknown) && !basis {
        Err(e.status.spec_name() + " evidence requires a basis"@)
    } else if e.status == EvidenceStatus::Unknown && sources.len() > 0 {
        Err("unknown evidence cannot cite a source"@)
    } else if e.status == EvidenceStatus::LiveVerified {
        if !basis || e.verified_at is None || e.verification_target is None {
            Err("live_verified evidence requires basis, verifiedAt, and verificationTarget"@)
        } else {
            Ok(())
        }
    } else if e.verified_at is Some || e.verification_target is Some {
        Err(e.status.spec_name() + " evidence cannot include verification fields"@)
    } else {
        Ok(())
    }
}

/// `char::is_whitespace`.
fn white_space(c: char) -> (r: bool)
    ensures
        r == is_white_space(c),
{
    let n = c as u32;
    (0x9 <= n && n <= 0xd) || n == 0x20 || n == 0x85 || n == 0xa0 || n == 0x1680 || (0x2000 <= n && n <= 0x200a)
        || n == 0x2028 || n == 0x2029 || n == 0x202f || n == 0x205f || n == 0x3000
}

/// Does the basis hold a character other than white space?
fn has_basis(basis: &Option<String>) -> (r: bool)
    ensures
        r == has_basis_text(*basis),
{
    match basis {
        None => false,
        Some(b) => {
            let c = chars_of(b.as_str());
            let mut i: usize = 0;
            while i < c.len()
                invariant
                    i <= c.len(),
                    c@ == b@,
                    *basis == Some(*b),
                    forall|j: int| 0 <= j < i ==> is_white_space(c@[j]),
                decreases c.len() - i,
            {
                if !white_space(c[i]) {
                    assert(!is_white_space(c@[i as int]));
                    assert(not_blank(c@));
                    return true;
                }
                i = i + 1;
            }
            false
        },
    }
}

/// Is the source well formed?
fn check_source(s: &EvidenceSource) -> (r: bool)
    ensures
        r == source_ok(*s),
{
    let title = chars_of(s.title.as_str());
    let url = chars_of(s.url.as_str());
    let scheme = chars_of("https://");
    proof {
        reveal_strlit("https://");
    }
    if title.len() == 0 || url.len() < 8 {
        return false;
    }
    let mut i: usize = 0;
    while i < 8
        invariant
            i <= 8,
            url.len() >= 8,
            url@ == s.url@,
            scheme@ == "https://"@,
            scheme@.len() == 8,
            forall|j: int| 0 <= j < i ==> url@[j] == scheme@[j],
        decreases 8 - i,
    {
        if url[i] != scheme[i] {
            assert(url@.take(8)[i as int] != scheme@[i as int]);
            return false;
        }
        i = i + 1;
    }
    assert(url@.take(8) =~= scheme@);
    true
}

impl ProviderEvidence {
    /// Check the evidence, as `evidence_check` states: sources need a title
    /// and an HTTPS URL; documented statuses need a source; all but
    /// `documented` and `live_verified` need a non-blank basis; `unknown`
    /// cites no source; `live_verified` needs a basis and both verification
    /// fields, which no other status may carry.
    pub fn validate(&self) -> (r: Result<(), String>)
        ensures
            match r {
                Ok(_) => evidence_check(*self) == Ok::<(), Seq<char>>(()),
                Err(m) => evidence_check(*self) == Err::<(), Seq<char>>(m@),
            },
    {
        let mut i: usize = 0;
        while i < self.sources.len()
            invariant
                i <= self.sources.len(),
                forall|j: int| 0 <= j < i ==> source_ok(#[trigger] self.sources@[j]),
            decreases self.sources.len() - i,
        {
            if !check_source(&self.sources[i]) {
                return Err(owned("sources require a title and canonical HTTPS URL"));
            }
            i = i + 1;
        }
        let basis = has_basis(&self.basis);
        let status = self.status;
        if (status == EvidenceStatus::Documented || status == EvidenceStatus::DocumentedExample
            || status == EvidenceStatus::SdkTransform) && self.sources.len() == 0 {
            return Err(concat2(status.as_str(), " evidence requires a source"));
        }
        if (status == EvidenceStatus::DocumentedExample || status == EvidenceStatus::SdkTransform
            || status == EvidenceStatus::Inferred || status == EvidenceStatus::Unknown) && !basis {
            return Err(concat2(status.as_str(), " evidence requires a basis"));
        }
        if status == EvidenceStatus::Unknown && self.sources.len() > 0 {
            return Err(owned("unknown evidence cannot cite a source"));
        }
        if status == EvidenceStatus::LiveVerified {
            if !basis || self.verified_at.is_none() || self.verification_target.is_none() {
                return Err(owned("live_verified evidence requires basis, verifiedAt, and verificationTarget"));
            }
        } else if self.verified_at.is_some() || self.verification_target.is_some() {
            return Err(concat2(status.as_str(), " evidence cannot include verification fields"));
        }
        Ok(())
    }

    /// The URL of the first source, if any.
    pub fn primary_url(&self) -> (r: Option<&str>)
        ensures
            match r {
                Some(u) => self.sources@.len() > 0 && u@ == self.sources@[0].url@,
                None => self.sources@.len() == 0,
            },
    {
        if self.sources.len() == 0 {
            None
        } else {
            Some(self.sources[0].url.as_str())
        }
    }
}

} // verus!
