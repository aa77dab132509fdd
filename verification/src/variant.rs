//! The canonical variant model and its two textual notations.
//!
//! A `Variant` is an immutable genomic edit: a contig name, a 1-based
//! inclusive position range, an edit kind, and optional reference/alternate
//! base runs.  Two grammars build it: an HGVS-like position/edit notation
//! (`from_hgvs`) and a VCF-like `REF>ALT` shorthand (`from_vcf`), the latter
//! normalised by pure string inspection.  The grammars are specified over the
//! character sequence of the input, and the parsers are proved to follow them
//! exactly, including which error each malformed input produces.

use vstd::prelude::*;

use crate::digits::dec_str;
use crate::digits::digits_val;
use crate::digits::is_digit_char;
use crate::digits::lemma_dec_str;
use crate::digits::lemma_digits_val_prefix;

verus! {

/// The kind of a genomic edit.
#[derive(Debug, Clone, Copy, PartialEq, Eq, Structural)]
pub enum Edit {
    /// One base replaced by one base.
    Sub,
    /// A run of reference bases removed.
    Del,
    /// A run of bases inserted between two reference bases.
    Ins,
    /// A run of reference bases replaced by a different run.
    Delins,
    /// No change: reference and alternate runs are textually equal.
    Identity,
}

impl Edit {
    pub fn is_del(&self) -> (r: bool)
        ensures
            r == (*self is Del),
    {
        matches!(*self, Self::Del)
    }

    pub fn is_ins(&self) -> (r: bool)
        ensures
            r == (*self is Ins),
    {
        matches!(*self, Self::Ins)
    }

    pub fn is_sub(&self) -> (r: bool)
        ensures
            r == (*self is Sub),
    {
        matches!(*self, Self::Sub)
    }

    pub fn is_delins(&self) -> (r: bool)
        ensures
            r == (*self is Delins),
    {
        matches!(*self, Self::Delins)
    }

    pub fn is_identity(&self) -> (r: bool)
        ensures
            r == (*self is Identity),
    {
        matches!(*self, Self::Identity)
    }
}

/// Which textual notation a string is written in.
#[derive(Debug, Clone, Copy, PartialEq, Eq, Structural)]
pub enum Format {
    Hgvs,
    Vcf,
}

/// The name of a format, matched without regard to ASCII case.
pub open spec fn spec_format_name(s: Seq<char>) -> Option<Format> {
    if s.len() == 4 && (s[0] == 'h' || s[0] == 'H') && (s[1] == 'g' || s[1] == 'G') && (s[2] == 'v'
        || s[2] == 'V') && (s[3] == 's' || s[3] == 'S') {
        Some(Format::Hgvs)
    } else if s.len() == 3 && (s[0] == 'v' || s[0] == 'V') && (s[1] == 'c' || s[1] == 'C') && (s[2]
        == 'f' || s[2] == 'F') {
        Some(Format::Vcf)
    } else {
        None
    }
}

impl Format {
    /// Recognise a format name, ignoring ASCII case.
    pub fn from_name(s: &str) -> (r: Option<Format>)
        ensures
            r == spec_format_name(s@),
    {
        let n = s.unicode_len();
        if n == 4 {
            let c0 = s.get_char(0);
            let c1 = s.get_char(1);
            let c2 = s.get_char(2);
            let c3 = s.get_char(3);
            if (c0 == 'h' || c0 == 'H') && (c1 == 'g' || c1 == 'G') && (c2 == 'v' || c2 == 'V') && (
            c3 == 's' || c3 == 'S') {
                Some(Format::Hgvs)
            } else {
                None
            }
        } else if n == 3 {
            let c0 = s.get_char(0);
            let c1 = s.get_char(1);
            let c2 = s.get_char(2);
            if (c0 == 'v' || c0 == 'V') && (c1 == 'c' || c1 == 'C') && (c2 == 'f' || c2 == 'F') {
                Some(Format::Vcf)
            } else {
                None
            }
        } else {
            None
        }
    }
}

impl core::str::FromStr for Format {
    type Err = ParseError;

    fn from_str(s: &str) -> Result<Format, ParseError> {
        match Format::from_name(s) {
            Some(f) => Ok(f),
            None => Err(ParseError::UnknownFormat),
        }
    }
}

/// Why a query region could not be built from two variants.
#[derive(Debug, Clone, Copy, PartialEq, Eq, Structural)]
pub enum RegionError {
    /// The two variants name different contigs.
    ContigMismatch,
    /// The half-open end of the region does not fit in 32 bits.
    PositionOverflow,
}

/// Why a notation string was rejected.
#[derive(Debug, Clone, Copy, PartialEq, Eq, Structural)]
pub enum ParseError {
    /// The format name is neither notation's.
    UnknownFormat,
    /// No `:` separates the contig from the position.
    MissingColon,
    /// A position needs at least one digit.
    MissingPosition,
    /// A position does not fit in 32 bits.
    PositionOverflow,
    /// No recognised edit tag (or `>` separator) follows the position.
    MissingEdit,
    /// A required base run is absent.
    MissingSequence,
    /// Unconsumed text remains after a recognised edit.
    TrailingInput,
}

/// The mathematical value of a `Variant`: its fields as sequences and
/// unbounded integers.
pub struct VariantModel {
    pub contig: Seq<char>,
    pub start: int,
    pub end: int,
    pub edit: Edit,
    pub refseq: Option<Seq<char>>,
    pub altseq: Option<Seq<char>>,
}

impl VariantModel {
    /// How many alignment positions the edit affects.
    pub open spec fn affected_len(self) -> int {
        match self.edit {
            Edit::Del => self.end - self.start + 1,
            Edit::Ins => match self.altseq {
                Some(a) => a.len() as int,
                None => 0,
            },
            Edit::Sub => 1,
            Edit::Delins => {
                let rl = match self.refseq {
                    Some(s) => s.len() as int,
                    None => 0,
                };
                let al = match self.altseq {
                    Some(s) => s.len() as int,
                    None => 0,
                };
                if rl >= al {
                    rl
                } else {
                    al
                }
            },
            Edit::Identity => 0,
        }
    }

    /// The invariants a variant is expected to satisfy: 1-based coordinates
    /// with an ordered range for deletions, at least one base run unless the
    /// edit is a pure deletion, and base runs that fit in 32-bit lengths.
    pub open spec fn wf(self) -> bool {
        &&& self.edit is Del ==> 1 <= self.start && self.start <= self.end
        &&& !(self.edit is Del) ==> self.refseq is Some || self.altseq is Some
        &&& match self.refseq {
            Some(s) => s.len() <= u32::MAX,
            None => true,
        }
        &&& match self.altseq {
            Some(s) => s.len() <= u32::MAX,
            None => true,
        }
    }
}

/// `c` is one of the base characters `A`, `T`, `C`, `G`, `N`.
pub open spec fn is_base_char(c: char) -> bool {
    c == 'A' || c == 'T' || c == 'C' || c == 'G' || c == 'N'
}

/// The first index at or after `i` holding `c`, or the length if none.
pub open spec fn find_from(s: Seq<char>, c: char, i: int) -> int
    decreases s.len() - i,
{
    if i < 0 || i >= s.len() {
        s.len() as int
    } else if s[i] == c {
        i
    } else {
        find_from(s, c, i + 1)
    }
}

/// The end of the maximal digit run starting at `i`.
pub open spec fn digit_run_end(s: Seq<char>, i: int) -> int
    decreases s.len() - i,
{
    if i < 0 || i >= s.len() || !is_digit_char(s[i]) {
        i
    } else {
        digit_run_end(s, i + 1)
    }
}

/// The end of the maximal base run starting at `i`.
pub open spec fn base_run_end(s: Seq<char>, i: int) -> int
    decreases s.len() - i,
{
    if i < 0 || i >= s.len() || !is_base_char(s[i]) {
        i
    } else {
        base_run_end(s, i + 1)
    }
}

/// A digit run covers `[i, digit_run_end)` and stops at a non-digit.
pub proof fn lemma_digit_run(s: Seq<char>, i: int)
    requires
        0 <= i <= s.len(),
    ensures
        i <= digit_run_end(s, i) <= s.len(),
        forall|k: int| i <= k < digit_run_end(s, i) ==> is_digit_char(#[trigger] s[k]),
        digit_run_end(s, i) < s.len() ==> !is_digit_char(s[digit_run_end(s, i)]),
    decreases s.len() - i,
{
    if i < s.len() && is_digit_char(s[i]) {
        lemma_digit_run(s, i + 1);
    }
}

/// `find_from` lands exactly on `j` when `c` first occurs there.
proof fn lemma_find_from_exact(s: Seq<char>, c: char, i: int, j: int)
    requires
        0 <= i <= j < s.len(),
        forall|k: int| i <= k < j ==> s[k] != c,
        s[j] == c,
    ensures
        find_from(s, c, i) == j,
    decreases j - i,
{
    if i < j {
        lemma_find_from_exact(s, c, i + 1, j);
    }
}

/// `digit_run_end` lands exactly on `j` when `[i, j)` holds digits and `j`
/// does not.
proof fn lemma_digit_run_exact(s: Seq<char>, i: int, j: int)
    requires
        0 <= i <= j <= s.len(),
        forall|k: int| i <= k < j ==> is_digit_char(#[trigger] s[k]),
        j < s.len() ==> !is_digit_char(s[j]),
    ensures
        digit_run_end(s, i) == j,
    decreases j - i,
{
    if i < j {
        lemma_digit_run_exact(s, i + 1, j);
    }
}

/// `base_run_end` lands exactly on `j` when `[i, j)` holds bases and `j`
/// does not.
proof fn lemma_base_run_exact(s: Seq<char>, i: int, j: int)
    requires
        0 <= i <= j <= s.len(),
        forall|k: int| i <= k < j ==> is_base_char(#[trigger] s[k]),
        j < s.len() ==> !is_base_char(s[j]),
    ensures
        base_run_end(s, i) == j,
    decreases j - i,
{
    if i < j {
        lemma_base_run_exact(s, i + 1, j);
    }
}

/// The edit tag recognised at `i`, with the index just past it.  The
/// literals are tried in a fixed order: `>`, `ins`, `delins`, `del`.
pub open spec fn hgvs_edit_at(s: Seq<char>, i: int) -> Option<(Edit, int)> {
    if i < s.len() && s[i] == '>' {
        Some((Edit::Sub, i + 1))
    } else if i + 3 <= s.len() && s[i] == 'i' && s[i + 1] == 'n' && s[i + 2] == 's' {
        Some((Edit::Ins, i + 3))
    } else if i + 6 <= s.len() && s[i] == 'd' && s[i + 1] == 'e' && s[i + 2] == 'l' && s[i + 3]
        == 'i' && s[i + 4] == 'n' && s[i + 5] == 's' {
        Some((Edit::Delins, i + 6))
    } else if i + 3 <= s.len() && s[i] == 'd' && s[i + 1] == 'e' && s[i + 2] == 'l' {
        Some((Edit::Del, i + 3))
    } else {
        None
    }
}

/// A position at `i`: one integer, optionally followed by `_` and a second
/// integer.  Yields the index just past the consumed part together with the
/// start and end positions; without a second integer, `end == start`.  A
/// lone `_` (no digits after it) is left unconsumed.
pub open spec fn position_parse(s: Seq<char>, i: int) -> Result<(int, int, int), ParseError> {
    let d1 = digit_run_end(s, i);
    if d1 == i {
        Err(ParseError::MissingPosition)
    } else if digits_val(s.subrange(i, d1)) > u32::MAX {
        Err(ParseError::PositionOverflow)
    } else {
        let start = digits_val(s.subrange(i, d1));
        let two = d1 < s.len() && s[d1] == '_' && digit_run_end(s, d1 + 1) > d1 + 1;
        if two {
            let d2 = digit_run_end(s, d1 + 1);
            if digits_val(s.subrange(d1 + 1, d2)) > u32::MAX {
                Err(ParseError::PositionOverflow)
            } else {
                Ok((d2, start, digits_val(s.subrange(d1 + 1, d2))))
            }
        } else {
            Ok((d1, start, start))
        }
    }
}

/// The position/edit grammar: `contig:pos[_pos2][REF]TAG[ALT]`, with an
/// optional `g.` marker before the position.  The result is the parsed
/// model, or the error raised at the first offending piece of input.
pub open spec fn hgvs_parse(s: Seq<char>) -> Result<VariantModel, ParseError> {
    let ci = find_from(s, ':', 0);
    if ci >= s.len() {
        Err(ParseError::MissingColon)
    } else {
        let p = if ci + 3 <= s.len() && s[ci + 1] == 'g' && s[ci + 2] == '.' {
            ci + 3
        } else {
            ci + 1
        };
        match position_parse(s, p) {
            Err(e) => Err(e),
            Ok((q, start, end)) => {
                let r1 = base_run_end(s, q);
                let refseq = if r1 > q {
                    Some(s.subrange(q, r1))
                } else {
                    None
                };
                match hgvs_edit_at(s, r1) {
                    None => Err(ParseError::MissingEdit),
                    Some((edit, t)) => {
                        let a1 = base_run_end(s, t);
                        let altseq = if a1 > t {
                            Some(s.subrange(t, a1))
                        } else {
                            None
                        };
                        if !(edit is Del) && refseq is None && altseq is None {
                            Err(ParseError::MissingSequence)
                        } else if a1 < s.len() {
                            Err(ParseError::TrailingInput)
                        } else {
                            Ok(
                                VariantModel {
                                    contig: s.subrange(0, ci),
                                    start,
                                    end,
                                    edit,
                                    refseq,
                                    altseq,
                                },
                            )
                        }
                    },
                }
            },
        }
    }
}

/// Classification of a `REF>ALT` pair by pure string inspection: equal runs
/// are an identity, single bases a substitution, a shared prefix a deletion
/// or an insertion, anything else a deletion-insertion.  A computed end
/// position that does not fit in 32 bits is rejected.
pub open spec fn vcf_normalize(contig: Seq<char>, start: int, refs: Seq<char>, alts: Seq<char>) -> Result<
    VariantModel,
    ParseError,
> {
    if refs == alts {
        if start + refs.len() - 1 > u32::MAX {
            Err(ParseError::PositionOverflow)
        } else {
            Ok(
                VariantModel {
                    contig,
                    start,
                    end: start + refs.len() - 1,
                    edit: Edit::Identity,
                    refseq: Some(refs),
                    altseq: Some(alts),
                },
            )
        }
    } else if refs.len() == 1 && alts.len() == 1 {
        Ok(
            VariantModel {
                contig,
                start,
                end: start,
                edit: Edit::Sub,
                refseq: Some(refs),
                altseq: Some(alts),
            },
        )
    } else if alts.len() <= refs.len() && refs.subrange(0, alts.len() as int) == alts {
        if start + refs.len() - 1 > u32::MAX {
            Err(ParseError::PositionOverflow)
        } else {
            Ok(
                VariantModel {
                    contig,
                    start: start + alts.len(),
                    end: start + refs.len() - 1,
                    edit: Edit::Del,
                    refseq: Some(refs.subrange(alts.len() as int, refs.len() as int)),
                    altseq: None,
                },
            )
        }
    } else if refs.len() <= alts.len() && alts.subrange(0, refs.len() as int) == refs {
        if start + 1 > u32::MAX {
            Err(ParseError::PositionOverflow)
        } else {
            Ok(
                VariantModel {
                    contig,
                    start,
                    end: start + 1,
                    edit: Edit::Ins,
                    refseq: None,
                    altseq: Some(alts.subrange(refs.len() as int, alts.len() as int)),
                },
            )
        }
    } else {
        if start + refs.len() - 1 > u32::MAX {
            Err(ParseError::PositionOverflow)
        } else {
            Ok(
                VariantModel {
                    contig,
                    start,
                    end: start + refs.len() - 1,
                    edit: Edit::Delins,
                    refseq: Some(refs),
                    altseq: Some(alts),
                },
            )
        }
    }
}

/// The `REF>ALT` shorthand grammar: `contig:pos REF>ALT` with both runs
/// mandatory, followed by normalisation.
pub open spec fn vcf_parse(s: Seq<char>) -> Result<VariantModel, ParseError> {
    let ci = find_from(s, ':', 0);
    if ci >= s.len() {
        Err(ParseError::MissingColon)
    } else {
        let p = ci + 1;
        let d1 = digit_run_end(s, p);
        if d1 == p {
            Err(ParseError::MissingPosition)
        } else if digits_val(s.subrange(p, d1)) > u32::MAX {
            Err(ParseError::PositionOverflow)
        } else {
            let start = digits_val(s.subrange(p, d1));
            let r1 = base_run_end(s, d1);
            if r1 == d1 {
                Err(ParseError::MissingSequence)
            } else if r1 >= s.len() || s[r1] != '>' {
                Err(ParseError::MissingEdit)
            } else {
                let a1 = base_run_end(s, r1 + 1);
                if a1 == r1 + 1 {
                    Err(ParseError::MissingSequence)
                } else if a1 < s.len() {
                    Err(ParseError::TrailingInput)
                } else {
                    vcf_normalize(s.subrange(0, ci), start, s.subrange(d1, r1), s.subrange(r1 + 1, a1))
                }
            }
        }
    }
}

/// Which grammar `Variant::from` applies for each format tag.
pub open spec fn variant_parse(s: Seq<char>, fmt: Format) -> Result<VariantModel, ParseError> {
    match fmt {
        Format::Hgvs => hgvs_parse(s),
        Format::Vcf => vcf_parse(s),
    }
}

/// `c` is a decimal digit.
fn is_digit(c: char) -> (r: bool)
    ensures
        r == is_digit_char(c),
{
    let u = c as u32;
    48 <= u && u <= 57
}

/// `c` is one of the base characters.
fn is_base(c: char) -> (r: bool)
    ensures
        r == is_base_char(c),
{
    c == 'A' || c == 'T' || c == 'C' || c == 'G' || c == 'N'
}

/// Index of the first `:`, or the length if there is none.
fn scan_to_colon(s: &str) -> (r: usize)
    ensures
        r as int == find_from(s@, ':', 0),
        r as int <= s@.len(),
        (r as int) < s@.len() ==> s@[r as int] == ':',
{
    let n = s.unicode_len();
    let mut i: usize = 0;
    while i < n && s.get_char(i) != ':'
        invariant
            0 <= i <= n,
            n as int == s@.len(),
            find_from(s@, ':', 0) == find_from(s@, ':', i as int),
        decreases n - i,
    {
        i = i + 1;
    }
    i
}

/// End of the maximal digit run starting at `from`.
fn scan_digits(s: &str, from: usize) -> (r: usize)
    requires
        from as int <= s@.len(),
    ensures
        r as int == digit_run_end(s@, from as int),
        from <= r,
        r as int <= s@.len(),
{
    let n = s.unicode_len();
    let mut i: usize = from;
    while i < n && is_digit(s.get_char(i))
        invariant
            from <= i,
            i <= n,
            n as int == s@.len(),
            digit_run_end(s@, from as int) == digit_run_end(s@, i as int),
        decreases n - i,
    {
        i = i + 1;
    }
    i
}

/// End of the maximal base run starting at `from`.
fn scan_bases(s: &str, from: usize) -> (r: usize)
    requires
        from as int <= s@.len(),
    ensures
        r as int == base_run_end(s@, from as int),
        from <= r,
        r as int <= s@.len(),
{
    let n = s.unicode_len();
    let mut i: usize = from;
    while i < n && is_base(s.get_char(i))
        invariant
            from <= i,
            i <= n,
            n as int == s@.len(),
            base_run_end(s@, from as int) == base_run_end(s@, i as int),
        decreases n - i,
    {
        i = i + 1;
    }
    i
}

/// The value of the digit run `[from, to)`, or an overflow error when it
/// exceeds 32 bits.
fn parse_u32_run(s: &str, from: usize, to: usize) -> (r: Result<u32, ParseError>)
    requires
        from <= to,
        to as int <= s@.len(),
        forall|k: int| from as int <= k < to as int ==> is_digit_char(#[trigger] s@[k]),
    ensures
        r matches Ok(v) ==> digits_val(s@.subrange(from as int, to as int)) == v as int,
        r matches Err(e) ==> e == ParseError::PositionOverflow && digits_val(
            s@.subrange(from as int, to as int),
        ) > u32::MAX,
{
    let mut acc: u64 = 0;
    let mut i: usize = from;
    proof {
        assert(s@.subrange(from as int, from as int) =~= Seq::<char>::empty());
    }
    while i < to
        invariant
            from <= i <= to,
            to as int <= s@.len(),
            forall|k: int| from as int <= k < to as int ==> is_digit_char(#[trigger] s@[k]),
            acc as int == digits_val(s@.subrange(from as int, i as int)),
            acc <= u32::MAX as u64,
        decreases to - i,
    {
        let c = s.get_char(i);
        let d: u64 = (c as u32 - 48) as u64;
        let v: u64 = acc * 10 + d;
        proof {
            assert(s@.subrange(from as int, i as int + 1).drop_last() =~= s@.subrange(
                from as int,
                i as int,
            ));
            assert(s@.subrange(from as int, i as int + 1).last() == s@[i as int]);
        }
        if v > u32::MAX as u64 {
            proof {
                let t = s@.subrange(from as int, to as int);
                assert(t.take(i + 1 - from as int) =~= s@.subrange(from as int, i as int + 1));
                assert(forall|k: int| 0 <= k < t.len() ==> is_digit_char(#[trigger] t[k]));
                lemma_digits_val_prefix(t, i + 1 - from as int);
            }
            return Err(ParseError::PositionOverflow);
        }
        acc = v;
        i = i + 1;
    }
    Ok(acc as u32)
}

/// A fresh string holding the characters `[from, to)` of `s`.
fn extract(s: &str, from: usize, to: usize) -> (r: String)
    requires
        from <= to,
        to as int <= s@.len(),
    ensures
        r@ == s@.subrange(from as int, to as int),
{
    s.substring_char(from, to).to_owned()
}

/// The edit tag starting at `from`, with the index just past it.
fn match_edit(s: &str, from: usize) -> (r: Option<(Edit, usize)>)
    requires
        from as int <= s@.len(),
    ensures
        match r {
            Some((e, j)) => hgvs_edit_at(s@, from as int) == Some((e, j as int)),
            None => hgvs_edit_at(s@, from as int) is None,
        },
{
    let n = s.unicode_len();
    if from < n && s.get_char(from) == '>' {
        return Some((Edit::Sub, from + 1));
    }
    if n - from >= 3 && s.get_char(from) == 'i' && s.get_char(from + 1) == 'n' && s.get_char(
        from + 2,
    ) == 's' {
        return Some((Edit::Ins, from + 3));
    }
    if n - from >= 6 && s.get_char(from) == 'd' && s.get_char(from + 1) == 'e' && s.get_char(
        from + 2,
    ) == 'l' && s.get_char(from + 3) == 'i' && s.get_char(from + 4) == 'n' && s.get_char(from + 5)
        == 's' {
        return Some((Edit::Delins, from + 6));
    }
    if n - from >= 3 && s.get_char(from) == 'd' && s.get_char(from + 1) == 'e' && s.get_char(
        from + 2,
    ) == 'l' {
        return Some((Edit::Del, from + 3));
    }
    None
}

/// Parse a position at offset `i`: the consumed end index and the start and
/// end positions.
fn parse_position_at(s: &str, i: usize) -> (r: Result<(usize, (u32, u32)), ParseError>)
    requires
        i as int <= s@.len(),
    ensures
        r matches Ok(v) ==> position_parse(s@, i as int) matches Ok(m) && m.0 == v.0 as int && m.1
            == v.1.0 as int && m.2 == v.1.1 as int && v.0 as int <= s@.len() && i <= v.0,
        r matches Err(e) ==> position_parse(s@, i as int) matches Err(m) && m == e,
{
    let n = s.unicode_len();
    let d1 = scan_digits(s, i);
    if d1 == i {
        return Err(ParseError::MissingPosition);
    }
    proof {
        lemma_digit_run(s@, i as int);
    }
    let start = match parse_u32_run(s, i, d1) {
        Ok(v) => v,
        Err(e) => { return Err(e) },
    };
    if d1 < n && s.get_char(d1) == '_' {
        let d2 = scan_digits(s, d1 + 1);
        if d2 > d1 + 1 {
            proof {
                lemma_digit_run(s@, d1 as int + 1);
            }
            let end = match parse_u32_run(s, d1 + 1, d2) {
                Ok(v) => v,
                Err(e) => { return Err(e) },
            };
            return Ok((d2, (start, end)));
        }
    }
    Ok((d1, (start, start)))
}

/// `b` is a prefix of `a`, compared character by character.
fn chars_prefix(a: &str, b: &str) -> (r: bool)
    ensures
        r == (b@.len() <= a@.len() && a@.subrange(0, b@.len() as int) == b@),
{
    let an = a.unicode_len();
    let bn = b.unicode_len();
    if bn > an {
        return false;
    }
    let mut i: usize = 0;
    while i < bn
        invariant
            0 <= i <= bn,
            bn <= an,
            an as int == a@.len(),
            bn as int == b@.len(),
            forall|k: int| 0 <= k < i as int ==> a@[k] == b@[k],
        decreases bn - i,
    {
        if a.get_char(i) != b.get_char(i) {
            proof {
                if a@.subrange(0, b@.len() as int) == b@ {
                    assert(a@.subrange(0, b@.len() as int)[i as int] == b@[i as int]);
                }
            }
            return false;
        }
        i = i + 1;
    }
    proof {
        assert(a@.subrange(0, b@.len() as int) =~= b@);
    }
    true
}

/// Parse a position at the head of `s`: one integer, optionally followed by
/// `_` and a second integer.  Returns the index just past the consumed part
/// and the `(start, end)` pair; without a second integer, `end == start`.
pub fn parse_position(s: &str) -> (r: Result<(usize, (u32, u32)), ParseError>)
    ensures
        r matches Ok(v) ==> position_parse(s@, 0) matches Ok(m) && m.0 == v.0 as int && m.1
            == v.1.0 as int && m.2 == v.1.1 as int,
        r matches Err(e) ==> position_parse(s@, 0) matches Err(m) && m == e,
{
    parse_position_at(s, 0)
}

/// The half-open coordinate span a region query needs to cover two
/// variants: from the smaller start to one past the larger end, defined
/// only when both variants name the same contig.
pub open spec fn spec_merge_region(a: VariantModel, b: VariantModel) -> Result<
    (int, int),
    RegionError,
> {
    if a.contig != b.contig {
        Err(RegionError::ContigMismatch)
    } else {
        let lo = if a.start <= b.start {
            a.start
        } else {
            b.start
        };
        let hi = if a.end >= b.end {
            a.end
        } else {
            b.end
        };
        if hi + 1 > u32::MAX {
            Err(RegionError::PositionOverflow)
        } else {
            Ok((lo, hi + 1))
        }
    }
}

/// Equality of two strings, compared character by character.
fn str_eq_chars(a: &str, b: &str) -> (r: bool)
    ensures
        r == (a@ == b@),
{
    let an = a.unicode_len();
    let bn = b.unicode_len();
    if an != bn {
        return false;
    }
    let pre = chars_prefix(a, b);
    proof {
        assert(a@.subrange(0, b@.len() as int) =~= a@);
    }
    pre
}

/// The half-open coordinate span covering two variants on one contig.
pub fn merge_region(first: &Variant, second: &Variant) -> (r: Result<(u32, u32), RegionError>)
    ensures
        r matches Ok(p) ==> spec_merge_region(first@, second@) matches Ok(m) && m.0 == p.0 as int
            && m.1 == p.1 as int,
        r matches Err(e) ==> spec_merge_region(first@, second@) matches Err(m) && m == e,
{
    if !str_eq_chars(first.contig(), second.contig()) {
        return Err(RegionError::ContigMismatch);
    }
    let s1 = *first.start();
    let s2 = *second.start();
    let e1 = *first.end();
    let e2 = *second.end();
    let lo: u32 = if s1 <= s2 {
        s1
    } else {
        s2
    };
    let hi: u32 = if e1 >= e2 {
        e1
    } else {
        e2
    };
    if hi == u32::MAX {
        return Err(RegionError::PositionOverflow);
    }
    Ok((lo, hi + 1))
}

/// The inclusive end position `start + rl - 1`, or an overflow error when
/// it does not fit in 32 bits.
fn end_of_run(start: u32, rl: usize) -> (r: Result<u32, ParseError>)
    requires
        rl >= 1,
    ensures
        r matches Ok(e) ==> e as int == start + rl - 1 && start + rl - 1 <= u32::MAX,
        r matches Err(e) ==> e == ParseError::PositionOverflow && start + rl - 1 > u32::MAX,
{
    if rl as u64 >= 4294967297u64 {
        return Err(ParseError::PositionOverflow);
    }
    let end64: u64 = start as u64 + rl as u64 - 1;
    if end64 > u32::MAX as u64 {
        Err(ParseError::PositionOverflow)
    } else {
        Ok(end64 as u32)
    }
}

/// Classify a `REF>ALT` pair and build the canonical variant.
fn normalize_vcf(contig: String, start: u32, refs: String, alts: String) -> (r: Result<
    Variant,
    ParseError,
>)
    requires
        refs@.len() >= 1,
        alts@.len() >= 1,
    ensures
        r matches Ok(v) ==> vcf_normalize(contig@, start as int, refs@, alts@) matches Ok(m) && v@
            == m,
        r matches Err(e) ==> vcf_normalize(contig@, start as int, refs@, alts@) matches Err(m) && m
            == e,
{
    let rl = refs.as_str().unicode_len();
    let al = alts.as_str().unicode_len();
    if refs == alts {
        let end = match end_of_run(start, rl) {
            Ok(v) => v,
            Err(e) => { return Err(e) },
        };
        Ok(
            Variant {
                contig,
                start,
                end,
                edit: Edit::Identity,
                refseq: Some(refs),
                altseq: Some(alts),
            },
        )
    } else if rl == 1 && al == 1 {
        Ok(
            Variant {
                contig,
                start,
                end: start,
                edit: Edit::Sub,
                refseq: Some(refs),
                altseq: Some(alts),
            },
        )
    } else if chars_prefix(refs.as_str(), alts.as_str()) {
        let end = match end_of_run(start, rl) {
            Ok(v) => v,
            Err(e) => { return Err(e) },
        };
        let rem = extract(refs.as_str(), al, rl);
        proof {
            assert(al < rl) by {
                if al == rl {
                    assert(refs@.subrange(0, al as int) =~= refs@);
                }
            }
        }
        let ns64: u64 = start as u64 + al as u64;
        Ok(
            Variant {
                contig,
                start: ns64 as u32,
                end,
                edit: Edit::Del,
                refseq: Some(rem),
                altseq: None,
            },
        )
    } else if chars_prefix(alts.as_str(), refs.as_str()) {
        if start == u32::MAX {
            return Err(ParseError::PositionOverflow);
        }
        let tail = extract(alts.as_str(), rl, al);
        Ok(
            Variant {
                contig,
                start,
                end: start + 1,
                edit: Edit::Ins,
                refseq: None,
                altseq: Some(tail),
            },
        )
    } else {
        let end = match end_of_run(start, rl) {
            Ok(v) => v,
            Err(e) => { return Err(e) },
        };
        Ok(
            Variant {
                contig,
                start,
                end,
                edit: Edit::Delins,
                refseq: Some(refs),
                altseq: Some(alts),
            },
        )
    }
}

/// A canonical genomic edit on a named contig.
#[derive(Debug, PartialEq)]
pub struct Variant {
    contig: String,
    start: u32,
    end: u32,
    edit: Edit,
    refseq: Option<String>,
    altseq: Option<String>,
}

impl View for Variant {
    type V = VariantModel;

    closed spec fn view(&self) -> VariantModel {
        VariantModel {
            contig: self.contig@,
            start: self.start as int,
            end: self.end as int,
            edit: self.edit,
            refseq: match self.refseq {
                Some(s) => Some(s@),
                None => None,
            },
            altseq: match self.altseq {
                Some(s) => Some(s@),
                None => None,
            },
        }
    }
}

impl Variant {
    /// The reference sequence name.
    pub fn contig(&self) -> (r: &str)
        ensures
            r@ == self@.contig,
    {
        self.contig.as_str()
    }

    /// The 1-based first affected position.
    pub fn start(&self) -> (r: &u32)
        ensures
            *r as int == self@.start,
    {
        &self.start
    }

    /// The 1-based last affected position.
    pub fn end(&self) -> (r: &u32)
        ensures
            *r as int == self@.end,
    {
        &self.end
    }

    /// The edit kind.
    pub fn edit(&self) -> (r: &Edit)
        ensures
            *r == self@.edit,
    {
        &self.edit
    }

    /// The reference base run, when present.
    pub fn refseq(&self) -> (r: Option<&str>)
        ensures
            match r {
                Some(s) => self@.refseq matches Some(m) && s@ == m,
                None => self@.refseq is None,
            },
    {
        match &self.refseq {
            Some(s) => Some(s.as_str()),
            None => None,
        }
    }

    /// The alternate base run, when present.
    pub fn altseq(&self) -> (r: Option<&str>)
        ensures
            match r {
                Some(s) => self@.altseq matches Some(m) && s@ == m,
                None => self@.altseq is None,
            },
    {
        match &self.altseq {
            Some(s) => Some(s.as_str()),
            None => None,
        }
    }

    /// How many alignment positions the edit affects.
    pub fn affected_length(&self) -> (r: u32)
        requires
            self@.wf(),
        ensures
            r as int == self@.affected_len(),
    {
        match self.edit {
            Edit::Del => self.end - self.start + 1,
            Edit::Ins => match &self.altseq {
                Some(a) => a.as_str().unicode_len() as u32,
                None => 0,
            },
            Edit::Sub => 1,
            Edit::Delins => {
                let rl: u32 = match &self.refseq {
                    Some(s) => s.as_str().unicode_len() as u32,
                    None => 0,
                };
                let al: u32 = match &self.altseq {
                    Some(s) => s.as_str().unicode_len() as u32,
                    None => 0,
                };
                if rl >= al {
                    rl
                } else {
                    al
                }
            },
            Edit::Identity => 0,
        }
    }

    /// Parse the position/edit notation.
    pub fn from_hgvs(input: &str) -> (r: Result<Variant, ParseError>)
        ensures
            r matches Ok(v) ==> hgvs_parse(input@) matches Ok(m) && v@ == m,
            r matches Err(e) ==> hgvs_parse(input@) matches Err(m) && m == e,
    {
        let n = input.unicode_len();
        let ci = scan_to_colon(input);
        if ci >= n {
            return Err(ParseError::MissingColon);
        }
        let p: usize = if n - ci >= 3 && input.get_char(ci + 1) == 'g' && input.get_char(ci + 2)
            == '.' {
            ci + 3
        } else {
            ci + 1
        };
        let (q, (start, end)) = match parse_position_at(input, p) {
            Ok(v) => v,
            Err(e) => { return Err(e) },
        };
        let r1 = scan_bases(input, q);
        let refseq: Option<String> = if r1 > q {
            Some(extract(input, q, r1))
        } else {
            None
        };
        let (edit, t) = match match_edit(input, r1) {
            Some(v) => v,
            None => { return Err(ParseError::MissingEdit) },
        };
        let a1 = scan_bases(input, t);
        let altseq: Option<String> = if a1 > t {
            Some(extract(input, t, a1))
        } else {
            None
        };
        if !matches!(edit, Edit::Del) && refseq.is_none() && altseq.is_none() {
            return Err(ParseError::MissingSequence);
        }
        if a1 < n {
            return Err(ParseError::TrailingInput);
        }
        let contig = extract(input, 0, ci);
        Ok(Variant { contig, start, end, edit, refseq, altseq })
    }

    /// Parse the `REF>ALT` shorthand notation.
    pub fn from_vcf(input: &str) -> (r: Result<Variant, ParseError>)
        ensures
            r matches Ok(v) ==> vcf_parse(input@) matches Ok(m) && v@ == m,
            r matches Err(e) ==> vcf_parse(input@) matches Err(m) && m == e,
    {
        let n = input.unicode_len();
        let ci = scan_to_colon(input);
        if ci >= n {
            return Err(ParseError::MissingColon);
        }
        let p = ci + 1;
        let d1 = scan_digits(input, p);
        if d1 == p {
            return Err(ParseError::MissingPosition);
        }
        proof {
            lemma_digit_run(input@, p as int);
        }
        let start = match parse_u32_run(input, p, d1) {
            Ok(v) => v,
            Err(e) => { return Err(e) },
        };
        let r1 = scan_bases(input, d1);
        if r1 == d1 {
            return Err(ParseError::MissingSequence);
        }
        if r1 >= n {
            return Err(ParseError::MissingEdit);
        }
        if input.get_char(r1) != '>' {
            return Err(ParseError::MissingEdit);
        }
        let a1 = scan_bases(input, r1 + 1);
        if a1 == r1 + 1 {
            return Err(ParseError::MissingSequence);
        }
        if a1 < n {
            return Err(ParseError::TrailingInput);
        }
        let contig = extract(input, 0, ci);
        let refs = extract(input, d1, r1);
        let alts = extract(input, r1 + 1, a1);
        normalize_vcf(contig, start, refs, alts)
    }

    /// Parse a notation string according to the given format tag.
    pub fn from(input: &str, fmt: &Format) -> (r: Result<Variant, ParseError>)
        ensures
            r matches Ok(v) ==> variant_parse(input@, *fmt) matches Ok(m) && v@ == m,
            r matches Err(e) ==> variant_parse(input@, *fmt) matches Err(m) && m == e,
    {
        match fmt {
            Format::Hgvs => Self::from_hgvs(input),
            Format::Vcf => Self::from_vcf(input),
        }
    }

    /// Whether the variant satisfies the model invariants.
    pub fn check_well_formed(&self) -> (r: bool)
        ensures
            r == self@.wf(),
    {
        let range_ok: bool = match self.edit {
            Edit::Del => 1 <= self.start && self.start <= self.end,
            _ => self.refseq.is_some() || self.altseq.is_some(),
        };
        let ref_ok: bool = match &self.refseq {
            Some(s) => s.as_str().unicode_len() <= u32::MAX as usize,
            None => true,
        };
        let alt_ok: bool = match &self.altseq {
            Some(s) => s.as_str().unicode_len() <= u32::MAX as usize,
            None => true,
        };
        range_ok && ref_ok && alt_ok
    }
}

/// The literal tag that writes an edit kind in the position/edit notation.
pub open spec fn hgvs_tag(e: Edit) -> Seq<char> {
    match e {
        Edit::Sub => seq!['>'],
        Edit::Ins => seq!['i', 'n', 's'],
        Edit::Delins => seq!['d', 'e', 'l', 'i', 'n', 's'],
        Edit::Del => seq!['d', 'e', 'l'],
        Edit::Identity => Seq::empty(),
    }
}

/// The string that writes a variant in the position/edit notation: the
/// contig and a colon, an optional `g.` marker, the start position, an
/// optional `_` and end position, the reference run, the edit tag, and the
/// alternate run.
pub open spec fn hgvs_text(
    contig: Seq<char>,
    marker: bool,
    start: u32,
    pos2: Option<u32>,
    refs: Seq<char>,
    edit: Edit,
    alts: Seq<char>,
) -> Seq<char> {
    contig + seq![':'] + (if marker {
        seq!['g', '.']
    } else {
        Seq::<char>::empty()
    }) + dec_str(start as int) + (match pos2 {
        Some(e) => seq!['_'] + dec_str(e as int),
        None => Seq::<char>::empty(),
    }) + refs + hgvs_tag(edit) + alts
}

/// Round trip over the whole position/edit grammar: for any contig without
/// a colon, any positions, any base runs (with a run required unless the
/// edit is a pure deletion) and any of the four written edit tags, parsing
/// the rendered string reproduces exactly the fields it was built from.
#[verifier::rlimit(100)]
pub proof fn lemma_hgvs_round_trip(
    contig: Seq<char>,
    marker: bool,
    start: u32,
    pos2: Option<u32>,
    refs: Seq<char>,
    edit: Edit,
    alts: Seq<char>,
)
    requires
        forall|k: int| 0 <= k < contig.len() ==> contig[k] != ':',
        forall|k: int| 0 <= k < refs.len() ==> is_base_char(#[trigger] refs[k]),
        forall|k: int| 0 <= k < alts.len() ==> is_base_char(#[trigger] alts[k]),
        edit is Sub || edit is Ins || edit is Delins || edit is Del,
        edit is Del || refs.len() > 0 || alts.len() > 0,
    ensures
        hgvs_parse(hgvs_text(contig, marker, start, pos2, refs, edit, alts)) == Ok::<
            VariantModel,
            ParseError,
        >(
            VariantModel {
                contig,
                start: start as int,
                end: match pos2 {
                    Some(e) => e as int,
                    None => start as int,
                },
                edit,
                refseq: if refs.len() > 0 {
                    Some(refs)
                } else {
                    None
                },
                altseq: if alts.len() > 0 {
                    Some(alts)
                } else {
                    None
                },
            },
        ),
{
    lemma_dec_str(start as int);
    let ds1 = dec_str(start as int);
    let mk = if marker {
        seq!['g', '.']
    } else {
        Seq::<char>::empty()
    };
    let p2s = match pos2 {
        Some(e) => seq!['_'] + dec_str(e as int),
        None => Seq::<char>::empty(),
    };
    let tag = hgvs_tag(edit);
    let s = hgvs_text(contig, marker, start, pos2, refs, edit, alts);
    let ci = contig.len() as int;
    let p = ci + 1 + mk.len();
    let d1 = p + ds1.len();
    let q = d1 + p2s.len();
    let r1 = q + refs.len();
    let t = r1 + tag.len();
    let a1 = t + alts.len();
    assert(1 <= tag.len());
    assert(s.len() == a1);
    assert(forall|k: int| 0 <= k < ci ==> s[k] == contig[k]);
    assert(s[ci] == ':');
    assert(forall|k: int| p <= k < d1 ==> s[k] == ds1[k - p]);
    assert(forall|k: int| q <= k < r1 ==> s[k] == refs[k - q]);
    assert(forall|k: int| r1 <= k < t ==> s[k] == tag[k - r1]);
    assert(forall|k: int| t <= k < a1 ==> s[k] == alts[k - t]);
    let tag0 = tag[0];
    assert(tag0 == '>' || tag0 == 'i' || tag0 == 'd');
    lemma_find_from_exact(s, ':', 0, ci);
    if marker {
        assert(s[ci + 1] == 'g' && s[ci + 2] == '.');
        assert(ci + 3 <= s.len());
    } else {
        assert(s[ci + 1] == ds1[0]);
        assert(is_digit_char(s[ci + 1]));
        assert(s[ci + 1] != 'g');
    }
    assert(d1 < s.len());
    assert(!is_digit_char(s[d1])) by {
        match pos2 {
            Some(_) => {
                assert(s[d1] == '_');
            },
            None => {
                if refs.len() > 0 {
                    assert(is_base_char(s[d1]));
                } else {
                    assert(s[d1] == tag0);
                }
            },
        }
    };
    lemma_digit_run_exact(s, p, d1);
    assert(s.subrange(p, d1) =~= ds1);
    assert(digits_val(s.subrange(p, d1)) == start as int);
    match pos2 {
        Some(e2) => {
            lemma_dec_str(e2 as int);
            let ds2 = dec_str(e2 as int);
            let p2 = d1 + 1;
            assert(s[d1] == '_');
            assert(forall|k: int| p2 <= k < q ==> s[k] == ds2[k - p2]);
            assert(q < s.len());
            assert(!is_digit_char(s[q])) by {
                if refs.len() > 0 {
                    assert(is_base_char(s[q]));
                } else {
                    assert(s[q] == tag0);
                }
            };
            lemma_digit_run_exact(s, p2, q);
            assert(s.subrange(p2, q) =~= ds2);
            assert(digits_val(s.subrange(p2, q)) == e2 as int);
            assert(q > p2);
            assert(position_parse(s, p) == Ok::<(int, int, int), ParseError>((
                q,
                start as int,
                e2 as int,
            )));
        },
        None => {
            assert(s[d1] != '_') by {
                if refs.len() > 0 {
                    assert(is_base_char(s[d1]));
                } else {
                    assert(s[d1] == tag0);
                }
            };
            assert(position_parse(s, p) == Ok::<(int, int, int), ParseError>((
                d1,
                start as int,
                start as int,
            )));
        },
    }
    assert(r1 < s.len());
    assert(s[r1] == tag0);
    assert(!is_base_char(s[r1]));
    lemma_base_run_exact(s, q, r1);
    assert(s.subrange(q, r1) =~= refs);
    match edit {
        Edit::Sub => {
            assert(s[r1] == '>');
            assert(hgvs_edit_at(s, r1) == Some((Edit::Sub, t)));
        },
        Edit::Ins => {
            assert(s[r1] == 'i' && s[r1 + 1] == 'n' && s[r1 + 2] == 's');
            assert(hgvs_edit_at(s, r1) == Some((Edit::Ins, t)));
        },
        Edit::Delins => {
            assert(s[r1] == 'd' && s[r1 + 1] == 'e' && s[r1 + 2] == 'l' && s[r1 + 3] == 'i' && s[r1
                + 4] == 'n' && s[r1 + 5] == 's');
            assert(hgvs_edit_at(s, r1) == Some((Edit::Delins, t)));
        },
        Edit::Del => {
            assert(s[r1] == 'd' && s[r1 + 1] == 'e' && s[r1 + 2] == 'l');
            if r1 + 6 <= s.len() {
                assert(alts.len() >= 3);
                assert(is_base_char(s[r1 + 3]));
                assert(s[r1 + 3] != 'i');
            }
            assert(hgvs_edit_at(s, r1) == Some((Edit::Del, t)));
        },
        Edit::Identity => {
            assert(false);
        },
    }
    assert(forall|k: int| t <= k < a1 ==> is_base_char(#[trigger] s[k]));
    lemma_base_run_exact(s, t, a1);
    assert(s.subrange(t, a1) =~= alts);
    assert(s.subrange(0, ci) =~= contig);
}

/// Round trip for a substitution written in the position/edit notation:
/// parsing `contig:START REF>ALT` reproduces exactly the contig, position,
/// edit kind and base runs it was built from.
pub proof fn lemma_hgvs_round_trip_substitution(
    contig: Seq<char>,
    start: u32,
    refs: Seq<char>,
    alts: Seq<char>,
)
    requires
        forall|k: int| 0 <= k < contig.len() ==> contig[k] != ':',
        refs.len() >= 1,
        forall|k: int| 0 <= k < refs.len() ==> is_base_char(#[trigger] refs[k]),
        alts.len() >= 1,
        forall|k: int| 0 <= k < alts.len() ==> is_base_char(#[trigger] alts[k]),
    ensures
        hgvs_parse(contig + seq![':'] + dec_str(start as int) + refs + seq!['>'] + alts) == Ok::<
            VariantModel,
            ParseError,
        >(
            VariantModel {
                contig,
                start: start as int,
                end: start as int,
                edit: Edit::Sub,
                refseq: Some(refs),
                altseq: Some(alts),
            },
        ),
{
    lemma_hgvs_round_trip(contig, false, start, None, refs, Edit::Sub, alts);
    assert(hgvs_text(contig, false, start, None, refs, Edit::Sub, alts) =~= contig + seq![':']
        + dec_str(start as int) + refs + seq!['>'] + alts);
}

/// Round trip for an insertion written in the position/edit notation:
/// parsing `contig:START_ENDinsALT` reproduces exactly the contig, the
/// position range, the edit kind and the inserted run.
pub proof fn lemma_hgvs_round_trip_insertion(
    contig: Seq<char>,
    start: u32,
    end: u32,
    alts: Seq<char>,
)
    requires
        forall|k: int| 0 <= k < contig.len() ==> contig[k] != ':',
        alts.len() >= 1,
        forall|k: int| 0 <= k < alts.len() ==> is_base_char(#[trigger] alts[k]),
    ensures
        hgvs_parse(
            contig + seq![':'] + dec_str(start as int) + seq!['_'] + dec_str(end as int) + seq![
                'i',
                'n',
                's',
            ] + alts,
        ) == Ok::<VariantModel, ParseError>(
            VariantModel {
                contig,
                start: start as int,
                end: end as int,
                edit: Edit::Ins,
                refseq: None,
                altseq: Some(alts),
            },
        ),
{
    lemma_hgvs_round_trip(contig, false, start, Some(end), Seq::empty(), Edit::Ins, alts);
    assert(hgvs_text(contig, false, start, Some(end), Seq::empty(), Edit::Ins, alts) =~= contig
        + seq![':'] + dec_str(start as int) + seq!['_'] + dec_str(end as int) + seq!['i', 'n', 's']
        + alts);
}

/// Round trip for a deletion written in the position/edit notation:
/// parsing `contig:START_ENDdel` reproduces exactly the contig, the
/// position range and the edit kind, with no base runs.
pub proof fn lemma_hgvs_round_trip_deletion(contig: Seq<char>, start: u32, end: u32)
    requires
        forall|k: int| 0 <= k < contig.len() ==> contig[k] != ':',
    ensures
        hgvs_parse(
            contig + seq![':'] + dec_str(start as int) + seq!['_'] + dec_str(end as int) + seq![
                'd',
                'e',
                'l',
            ],
        ) == Ok::<VariantModel, ParseError>(
            VariantModel {
                contig,
                start: start as int,
                end: end as int,
                edit: Edit::Del,
                refseq: None,
                altseq: None,
            },
        ),
{
    lemma_hgvs_round_trip(contig, false, start, Some(end), Seq::empty(), Edit::Del, Seq::empty());
    assert(hgvs_text(contig, false, start, Some(end), Seq::empty(), Edit::Del, Seq::empty())
        =~= contig + seq![':'] + dec_str(start as int) + seq!['_'] + dec_str(end as int) + seq![
            'd',
            'e',
            'l',
        ]);
}

} // verus!
