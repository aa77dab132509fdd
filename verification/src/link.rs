//! Linkage classification over aggregated per-read evidence counts.
//!
//! Four counters (`both`, `first`, `second`, `neither`) summarise how many
//! reads support both variants, exactly one of them, or neither.  A fixed
//! battery of frequency-threshold rules, evaluated in order, infers the
//! physical relationship of the two variants.  All frequency thresholds are
//! exact rational comparisons: a ratio `num/den >= p/100` is decided as
//! `100*num >= p*den`, and every comparison against an empty denominator is
//! false (so an empty tally never satisfies any rule).

use vstd::prelude::*;

use crate::digits::dec_str;
use crate::digits::u32_string;

verus! {

/// Minimum read count for a category to be trusted by a rule.
pub const VALID_READ: u32 = 3;

/// Threshold, in hundredths, below which a frequency counts as noise.
pub const VALID_FREQ_PCT: u64 = 1;

/// Threshold, in hundredths, above which a frequency counts as confident.
pub const CONF_FREQ_PCT: u64 = 96;

/// The inferred physical relationship between two variants.
#[derive(Debug, Clone, Copy, PartialEq, Eq, Structural)]
pub enum Linkage {
    /// Both variants sit on the same haplotype copy.
    Cis,
    /// The variants sit on opposite haplotype copies.
    Trans,
    /// The first variant is obligate, the second optional.
    Super,
    /// The second variant is obligate, the first optional.
    Sub,
    /// Both variants are well supported separately and jointly.
    Cross,
}

/// Aggregated read counts for a pair of variants.
#[derive(Debug)]
pub struct Link {
    pub both: u32,
    pub first: u32,
    pub second: u32,
    pub neither: u32,
}

/// `num/den >= pct/100`, exactly; false when `den == 0`.
pub open spec fn frac_at_least(num: int, den: int, pct: int) -> bool {
    den > 0 && 100 * num >= pct * den
}

/// `num/den < pct/100`, exactly; false when `den == 0`.
pub open spec fn frac_below(num: int, den: int, pct: int) -> bool {
    den > 0 && 100 * num < pct * den
}

impl Link {
    /// Reads supporting exactly one of the two variants.
    pub open spec fn spec_either(self) -> int {
        self.first + self.second
    }

    /// Reads supporting at least one of the two variants.
    pub open spec fn spec_any(self) -> int {
        self.both + self.spec_either()
    }

    /// The smaller of the two single-variant counts.
    pub open spec fn spec_minor(self) -> int {
        if self.first <= self.second {
            self.first as int
        } else {
            self.second as int
        }
    }

    /// The larger of the two single-variant counts.
    pub open spec fn spec_major(self) -> int {
        if self.first <= self.second {
            self.second as int
        } else {
            self.first as int
        }
    }

    /// Joint support dominates and single-variant support is noise.
    pub open spec fn spec_cis(self) -> bool {
        &&& self.both >= VALID_READ
        &&& frac_at_least(self.both as int, self.spec_any(), CONF_FREQ_PCT as int)
        &&& self.spec_major() < VALID_READ
        &&& frac_below(self.spec_major(), self.spec_any(), VALID_FREQ_PCT as int)
    }

    /// Joint support is noise while both single-variant counts are solid.
    pub open spec fn spec_trans(self) -> bool {
        &&& self.both < VALID_READ
        &&& frac_below(self.both as int, self.spec_any(), VALID_FREQ_PCT as int)
        &&& self.spec_minor() >= VALID_READ
        &&& frac_at_least(self.spec_minor(), self.spec_minor() + self.both, CONF_FREQ_PCT as int)
    }

    /// The first variant never appears alone; the second does.
    pub open spec fn spec_sub(self) -> bool {
        &&& self.both >= VALID_READ
        &&& self.first < VALID_READ
        &&& frac_below(self.first as int, self.spec_any(), VALID_FREQ_PCT as int)
        &&& self.second >= VALID_READ
    }

    /// The second variant never appears alone; the first does.
    pub open spec fn spec_super(self) -> bool {
        &&& self.both >= VALID_READ
        &&& self.second < VALID_READ
        &&& frac_below(self.second as int, self.spec_any(), VALID_FREQ_PCT as int)
        &&& self.first >= VALID_READ
    }

    /// Joint and single-variant support are each above the noise floor.
    pub open spec fn spec_cross(self) -> bool {
        &&& self.both >= VALID_READ
        &&& frac_at_least(self.both as int, self.spec_any(), VALID_FREQ_PCT as int)
        &&& self.spec_minor() >= VALID_READ
        &&& frac_at_least(self.spec_minor(), self.spec_any(), VALID_FREQ_PCT as int)
    }

    /// The classification: the first rule that matches, in this order, wins.
    pub open spec fn spec_linkage(self) -> Option<Linkage> {
        if self.spec_cis() {
            Some(Linkage::Cis)
        } else if self.spec_trans() {
            Some(Linkage::Trans)
        } else if self.spec_sub() {
            Some(Linkage::Sub)
        } else if self.spec_super() {
            Some(Linkage::Super)
        } else if self.spec_cross() {
            Some(Linkage::Cross)
        } else {
            None
        }
    }

    /// Infer the linkage relationship from the tally; `None` means undefined.
    pub fn infer_linkage(&self) -> (r: Option<Linkage>)
        ensures
            r == self.spec_linkage(),
    {
        let both: u64 = self.both as u64;
        let first: u64 = self.first as u64;
        let second: u64 = self.second as u64;
        let any: u64 = both + first + second;
        let minor: u64 = if first <= second {
            first
        } else {
            second
        };
        let major: u64 = if first <= second {
            second
        } else {
            first
        };
        let valid: u64 = VALID_READ as u64;
        if both >= valid && any > 0 && 100 * both >= CONF_FREQ_PCT * any && major < valid && 100
            * major < VALID_FREQ_PCT * any {
            Some(Linkage::Cis)
        } else if both < valid && any > 0 && 100 * both < VALID_FREQ_PCT * any && minor >= valid
            && 100 * minor >= CONF_FREQ_PCT * (minor + both) {
            Some(Linkage::Trans)
        } else if both >= valid && first < valid && any > 0 && 100 * first < VALID_FREQ_PCT * any
            && second >= valid {
            Some(Linkage::Sub)
        } else if both >= valid && second < valid && any > 0 && 100 * second < VALID_FREQ_PCT * any
            && first >= valid {
            Some(Linkage::Super)
        } else if both >= valid && any > 0 && 100 * both >= VALID_FREQ_PCT * any && minor >= valid
            && 100 * minor >= VALID_FREQ_PCT * any {
            Some(Linkage::Cross)
        } else {
            None
        }
    }
}

impl Linkage {
    /// The lower-case name of the relationship.
    pub open spec fn spec_name(self) -> Seq<char> {
        match self {
            Linkage::Cis => "cis"@,
            Linkage::Trans => "trans"@,
            Linkage::Super => "super"@,
            Linkage::Sub => "sub"@,
            Linkage::Cross => "cross"@,
        }
    }

    /// The lower-case name of the relationship.
    pub fn as_str(&self) -> (r: &'static str)
        ensures
            r@ == self.spec_name(),
    {
        match self {
            Linkage::Cis => "cis",
            Linkage::Trans => "trans",
            Linkage::Super => "super",
            Linkage::Sub => "sub",
            Linkage::Cross => "cross",
        }
    }
}

impl Default for Link {
    /// An empty tally: every counter starts at zero.
    fn default() -> (r: Self)
        ensures
            r.both == 0 && r.first == 0 && r.second == 0 && r.neither == 0,
    {
        Link { both: 0, first: 0, second: 0, neither: 0 }
    }
}

impl Link {
    /// The textual report: the four counters and the inferred conclusion
    /// (or `undefined`), rendered as a structured record.
    pub open spec fn spec_report(self) -> Seq<char> {
        "{\n  \"both\": "@ + dec_str(self.both as int) + ",\n  \"first\": "@ + dec_str(
            self.first as int,
        ) + ",\n  \"second\": "@ + dec_str(self.second as int) + ",\n  \"neither\": "@ + dec_str(
            self.neither as int,
        ) + ",\n  \"conclusion\": \""@ + (match self.spec_linkage() {
            Some(l) => l.spec_name(),
            None => "undefined"@,
        }) + "\"\n}"@
    }

    /// Render the tally and its inferred linkage as text.
    pub fn report(&self) -> (r: String)
        ensures
            r@ == self.spec_report(),
    {
        let mut s = String::new();
        s.append("{\n  \"both\": ");
        let both = u32_string(self.both);
        s.append(both.as_str());
        s.append(",\n  \"first\": ");
        let first = u32_string(self.first);
        s.append(first.as_str());
        s.append(",\n  \"second\": ");
        let second = u32_string(self.second);
        s.append(second.as_str());
        s.append(",\n  \"neither\": ");
        let neither = u32_string(self.neither);
        s.append(neither.as_str());
        s.append(",\n  \"conclusion\": \"");
        match self.infer_linkage() {
            Some(l) => s.append(l.as_str()),
            None => s.append("undefined"),
        }
        s.append("\"\n}");
        proof {
            assert(s@ =~= self.spec_report());
        }
        s
    }
}

/// The rules are tried in a fixed order and the first match decides; when
/// none matches, the linkage is undefined.
pub proof fn lemma_linkage_first_match(link: Link)
    ensures
        link.spec_cis() ==> link.spec_linkage() == Some(Linkage::Cis),
        !link.spec_cis() && link.spec_trans() ==> link.spec_linkage() == Some(Linkage::Trans),
        !link.spec_cis() && !link.spec_trans() && link.spec_sub() ==> link.spec_linkage() == Some(
            Linkage::Sub,
        ),
        !link.spec_cis() && !link.spec_trans() && !link.spec_sub() && link.spec_super()
            ==> link.spec_linkage() == Some(Linkage::Super),
        !link.spec_cis() && !link.spec_trans() && !link.spec_sub() && !link.spec_super()
            && link.spec_cross() ==> link.spec_linkage() == Some(Linkage::Cross),
        !link.spec_cis() && !link.spec_trans() && !link.spec_sub() && !link.spec_super()
            && !link.spec_cross() ==> link.spec_linkage() is None,
{
}

/// A tally with no supporting read in any category satisfies no rule: every
/// frequency comparison has an empty denominator and is false.
pub proof fn lemma_empty_tally_undefined(link: Link)
    requires
        link.both == 0,
        link.first == 0,
        link.second == 0,
    ensures
        link.spec_linkage() is None,
{
}

} // verus!
