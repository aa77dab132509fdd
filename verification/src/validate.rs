//! Per-read evidence matching.
//!
//! A read is judged against a target variant in four steps: an applicability
//! filter (unmapped reads, and reads whose aligned span does not fully cover
//! the variant's region, are not informative: no partial credit for
//! partially-overlapping reads), a positioning scan that discards alignment entries
//! before the variant, a boundary check of the first remaining entry under
//! the adjacency-conflict policy, and a walk that matches the remaining
//! entries against the variant's expected reference and alternate base runs.
//! The verdict is `None` (not informative), `Some(true)` (supports) or
//! `Some(false)` (refutes).
//!
//! The read itself is plain data: the mapped flag, the aligned span, and the
//! ordered alignment entries, exactly what the matcher inspects of an
//! alignment record.  The host that reads alignment files converts its
//! records into this form.

use vstd::prelude::*;

use crate::variant::Edit;
use crate::variant::Variant;
use crate::variant::VariantModel;

verus! {

/// How one alignment entry relates a read base to the reference.
#[derive(Debug, Clone, Copy, PartialEq, Eq, Structural)]
pub enum EntryKind {
    /// Read and reference agree at this position.
    Match,
    /// Read and reference disagree at this position.
    Mismatch,
    /// A base present in the read but not the reference.
    Insertion,
    /// A reference base absent from the read.
    Deletion,
}

/// One step of read-to-reference correspondence: the entry kind, the 0-based
/// reference position (absent for insertions), and the reference and read
/// bases where the producer supplies them.
#[derive(Debug, Clone, Copy, PartialEq)]
pub struct AlignEntry {
    pub kind: EntryKind,
    pub ref_pos: Option<u32>,
    pub ref_nt: Option<u8>,
    pub record_nt: Option<u8>,
}

/// An aligned read as the matcher consumes it: the mapped flag, the 0-based
/// leftmost aligned reference position, the 1-based inclusive rightmost
/// aligned position, and the ordered alignment entries.  A record without
/// usable alignment information carries no entries.
#[derive(Debug)]
pub struct Record {
    pub mapped: bool,
    pub start: u32,
    pub end: u32,
    pub entries: Vec<AlignEntry>,
}

/// Options for the evidence matcher.
#[derive(Debug)]
pub struct ValidateOptions {
    merge: bool,
}

impl ValidateOptions {
    /// Whether a distinct compound edit adjacent to the variant disqualifies
    /// the read.
    pub closed spec fn spec_merge(&self) -> bool {
        self.merge
    }

    /// Choose whether adjacent distinct edits disqualify the read.
    pub fn set_merge(&mut self, merge: bool)
        ensures
            final(self).spec_merge() == merge,
    {
        self.merge = merge;
    }
}

impl Default for ValidateOptions {
    /// By default nearby simple edits are treated as orthogonal noise.
    fn default() -> (r: Self)
        ensures
            r.spec_merge() == false,
    {
        ValidateOptions { merge: false }
    }
}

/// The edit kind a single alignment entry exhibits.
pub open spec fn entry_edit(e: AlignEntry) -> Edit {
    match e.kind {
        EntryKind::Insertion => Edit::Ins,
        EntryKind::Deletion => Edit::Del,
        EntryKind::Mismatch => Edit::Sub,
        EntryKind::Match => Edit::Identity,
    }
}

/// The adjacency-conflict policy: whether an edit observed next to the
/// variant is incompatible with the target edit.  Identity on either side
/// never conflicts; a compound edit beside a substitution conflicts only
/// under `merge`; any other pairing with a compound edit conflicts; mixed
/// simple kinds and substitutions conflict only under `merge`; two equal
/// simple non-substitution kinds always conflict.
pub open spec fn spec_conflict(e1: Edit, e2: Edit, merge: bool) -> bool {
    if e1 is Identity || e2 is Identity {
        false
    } else if e1 is Delins && e2 is Sub {
        merge
    } else if e1 is Delins || e2 is Delins {
        true
    } else if ((e1 is Del) != (e2 is Del)) || ((e1 is Ins) != (e2 is Ins)) || e1 is Sub
        || e2 is Sub {
        merge
    } else {
        true
    }
}

/// The adjacency-conflict policy never fires when either side is Identity.
pub proof fn lemma_conflict_identity(e: Edit, merge: bool)
    ensures
        !spec_conflict(Edit::Identity, e, merge),
        !spec_conflict(e, Edit::Identity, merge),
{
}

/// Decide the adjacency-conflict policy.
fn logical_merge(e1: &Edit, e2: &Edit, merge: bool) -> (r: bool)
    ensures
        r == spec_conflict(*e1, *e2, merge),
{
    if e1.is_identity() || e2.is_identity() {
        false
    } else if e1.is_delins() && e2.is_sub() {
        merge
    } else if e1.is_delins() || e2.is_delins() {
        true
    } else if (e1.is_del() != e2.is_del()) || (e1.is_ins() != e2.is_ins()) || e1.is_sub()
        || e2.is_sub() {
        merge
    } else {
        true
    }
}

/// An entry is passed over while positioning when it has no reference
/// position or sits strictly before the threshold.
pub open spec fn skipped(e: AlignEntry, threshold: int) -> bool {
    match e.ref_pos {
        None => true,
        Some(p) => p < threshold,
    }
}

/// The first index at or after `i` whose entry is not skipped, or the
/// length if all remaining entries are.
pub open spec fn skip_idx(entries: Seq<AlignEntry>, threshold: int, i: int) -> int
    decreases entries.len() - i,
{
    if i < 0 || i >= entries.len() {
        entries.len() as int
    } else if skipped(entries[i], threshold) {
        skip_idx(entries, threshold, i + 1)
    } else {
        i
    }
}

/// The bytes of a base-run string, character by character.
pub open spec fn chars_bytes(s: Seq<char>) -> Seq<u8> {
    Seq::new(s.len(), |k: int| s[k] as u8)
}

/// The reference bases the variant expects: its reference run, or for a
/// pure deletion without one, a placeholder run of `N` sized to the
/// affected length.
pub open spec fn expected_ref(v: VariantModel) -> Seq<u8> {
    match v.refseq {
        Some(s) => chars_bytes(s),
        None => if v.edit is Del {
            Seq::new(v.affected_len() as nat, |k: int| 78u8)
        } else {
            Seq::empty()
        },
    }
}

/// The alternate bases the variant expects.
pub open spec fn expected_alt(v: VariantModel) -> Seq<u8> {
    match v.altseq {
        Some(s) => chars_bytes(s),
        None => Seq::empty(),
    }
}

/// The optional head of `s` at cursor `i`.
pub open spec fn head_opt(s: Seq<u8>, i: int) -> Option<u8> {
    if 0 <= i < s.len() {
        Some(s[i])
    } else {
        None
    }
}

/// The sequence walk from entry `i` with the reference cursor at `ri` and
/// the alternate cursor at `ai`.  Once both cursors are exhausted, the next
/// entry decides support unless it conflicts; while a cursor remains, an
/// insertion entry must supply the next alternate base, a deletion entry
/// must carry a reference base, and a match or mismatch entry must supply
/// the next alternate and reference bases at once.  Running out of entries
/// early refutes the variant.
pub open spec fn walk(
    entries: Seq<AlignEntry>,
    i: int,
    refs: Seq<u8>,
    ri: int,
    alts: Seq<u8>,
    ai: int,
    target: Edit,
    merge: bool,
) -> bool
    decreases entries.len() - i,
{
    if i < 0 || i >= entries.len() {
        ri >= refs.len() && ai >= alts.len()
    } else {
        let e = entries[i];
        let done = ri >= refs.len() && ai >= alts.len();
        if done {
            !spec_conflict(entry_edit(e), target, merge)
        } else {
            match e.kind {
                EntryKind::Insertion => {
                    if e.record_nt == head_opt(alts, ai) {
                        walk(
                            entries,
                            i + 1,
                            refs,
                            ri,
                            alts,
                            if ai < alts.len() {
                                ai + 1
                            } else {
                                ai
                            },
                            target,
                            merge,
                        )
                    } else {
                        false
                    }
                },
                EntryKind::Deletion => {
                    if e.ref_nt is Some {
                        walk(
                            entries,
                            i + 1,
                            refs,
                            if ri < refs.len() {
                                ri + 1
                            } else {
                                ri
                            },
                            alts,
                            ai,
                            target,
                            merge,
                        )
                    } else {
                        false
                    }
                },
                _ => {
                    if e.record_nt == head_opt(alts, ai) && e.ref_nt == head_opt(refs, ri) {
                        walk(
                            entries,
                            i + 1,
                            refs,
                            if ri < refs.len() {
                                ri + 1
                            } else {
                                ri
                            },
                            alts,
                            if ai < alts.len() {
                                ai + 1
                            } else {
                                ai
                            },
                            target,
                            merge,
                        )
                    } else {
                        false
                    }
                },
            }
        }
    }
}

/// The verdict of the matcher on a read: `None` when the read is unmapped,
/// or its aligned span does not fully cover `[v.start, v.end]` (for a pure
/// insertion that range is the two bases anchoring the insertion point), or
/// no entry reaches the variant; `Some(false)` when the entry at the
/// boundary conflicts; otherwise the result of the sequence walk (vacuously
/// `Some(true)` for an empty non-deletion expectation).
pub open spec fn validate_spec(rec: Record, v: VariantModel, merge: bool) -> Option<bool> {
    if !rec.mapped || rec.start + 1 > v.start || rec.end < v.end {
        None
    } else {
        let threshold = v.start - 1 - (if v.edit is Ins {
            0int
        } else {
            1int
        });
        let j = skip_idx(rec.entries@, threshold, 0);
        if j >= rec.entries@.len() {
            None
        } else if spec_conflict(entry_edit(rec.entries@[j]), v.edit, merge) {
            Some(false)
        } else {
            let refs = expected_ref(v);
            let alts = expected_alt(v);
            if refs.len() == 0 && alts.len() == 0 && !(v.edit is Del) {
                Some(true)
            } else {
                Some(walk(rec.entries@, j + 1, refs, 0, alts, 0, v.edit, merge))
            }
        }
    }
}

/// A read that is unmapped, or whose aligned span does not fully cover the
/// variant's region, is never informative, whatever its entries hold.
pub proof fn lemma_out_of_scope_read_not_applicable(rec: Record, v: VariantModel, merge: bool)
    requires
        !rec.mapped || rec.start + 1 > v.start || rec.end < v.end,
    ensures
        validate_spec(rec, v, merge) is None,
{
}

/// Judging a read's support for a variant.
pub trait VariantValidate {
    /// The verdict the matcher owes for this read.
    spec fn validate_model(&self, variant: &Variant, options: &ValidateOptions) -> Option<bool>;

    /// Whether this read supports the variant: `None` when not informative,
    /// otherwise `Some(supports)`.
    fn validate(&self, variant: &Variant, options: &ValidateOptions) -> (r: Option<bool>)
        requires
            variant@.wf(),
        ensures
            r == self.validate_model(variant, options),
    ;
}

/// `c` repeated `len` times.
fn byte_run(len: u32, c: u8) -> (r: Vec<u8>)
    ensures
        r@ =~= Seq::new(len as nat, |k: int| c),
{
    let mut v: Vec<u8> = Vec::new();
    let mut i: u32 = 0;
    while i < len
        invariant
            i <= len,
            v@ =~= Seq::new(i as nat, |k: int| c),
        decreases len - i,
    {
        v.push(c);
        i = i + 1;
    }
    v
}

/// The bytes of a base-run string.
fn chars_to_vec(s: &str) -> (r: Vec<u8>)
    ensures
        r@ =~= chars_bytes(s@),
{
    let n = s.unicode_len();
    let mut v: Vec<u8> = Vec::new();
    let mut i: usize = 0;
    while i < n
        invariant
            i <= n,
            n as int == s@.len(),
            v@ =~= chars_bytes(s@).take(i as int),
        decreases n - i,
    {
        let c = s.get_char(i);
        v.push(c as u8);
        proof {
            assert(v@ =~= chars_bytes(s@).take(i as int + 1));
        }
        i = i + 1;
    }
    proof {
        assert(chars_bytes(s@).take(n as int) =~= chars_bytes(s@));
    }
    v
}

/// Equality of two optional bases.
fn opt_u8_eq(a: Option<u8>, b: Option<u8>) -> (r: bool)
    ensures
        r == (a == b),
{
    match (a, b) {
        (None, None) => true,
        (Some(x), Some(y)) => x == y,
        _ => false,
    }
}

/// Whether positioning passes over this entry.
fn entry_skipped(e: &AlignEntry, threshold: i64) -> (r: bool)
    ensures
        r == skipped(*e, threshold as int),
{
    match e.ref_pos {
        None => true,
        Some(p) => (p as i64) < threshold,
    }
}

/// The edit kind an entry exhibits.
fn entry_edit_of(e: &AlignEntry) -> (r: Edit)
    ensures
        r == entry_edit(*e),
{
    match e.kind {
        EntryKind::Insertion => Edit::Ins,
        EntryKind::Deletion => Edit::Del,
        EntryKind::Mismatch => Edit::Sub,
        EntryKind::Match => Edit::Identity,
    }
}

impl VariantValidate for Record {
    open spec fn validate_model(&self, variant: &Variant, options: &ValidateOptions) -> Option<
        bool,
    > {
        validate_spec(*self, variant@, options.spec_merge())
    }

    #[verifier::loop_isolation(false)]
    fn validate(&self, variant: &Variant, options: &ValidateOptions) -> (r: Option<bool>) {
        if !self.mapped {
            return None;
        }
        if self.start as u64 + 1 > *variant.start() as u64 || (self.end as u64) < *variant.end()
            as u64 {
            return None;
        }
        let vstart: u32 = *variant.start();
        let k: i64 = if variant.edit().is_ins() {
            0
        } else {
            1
        };
        let threshold: i64 = vstart as i64 - 1 - k;
        let n = self.entries.len();
        let mut j: usize = 0;
        while j < n && entry_skipped(&self.entries[j], threshold)
            invariant
                0 <= j <= n,
                n == self.entries@.len(),
                skip_idx(self.entries@, threshold as int, 0) == skip_idx(
                    self.entries@,
                    threshold as int,
                    j as int,
                ),
            decreases n - j,
        {
            j = j + 1;
        }
        if j >= n {
            return None;
        }
        let first_edit = entry_edit_of(&self.entries[j]);
        let tedit: Edit = *variant.edit();
        if logical_merge(&first_edit, &tedit, options.merge) {
            return Some(false);
        }
        let del = variant.edit().is_del();
        let refs_vec: Vec<u8> = match variant.refseq() {
            Some(s) => chars_to_vec(s),
            None => if del {
                byte_run(variant.affected_length(), 78)
            } else {
                Vec::new()
            },
        };
        let alts_vec: Vec<u8> = match variant.altseq() {
            Some(s) => chars_to_vec(s),
            None => Vec::new(),
        };
        proof {
            assert(refs_vec@ =~= expected_ref(variant@));
            assert(alts_vec@ =~= expected_alt(variant@));
        }
        if refs_vec.len() == 0 && alts_vec.len() == 0 && !del {
            return Some(true);
        }
        let merge = options.merge;
        let mut i: usize = j + 1;
        let mut ri: usize = 0;
        let mut ai: usize = 0;
        while i < n
            invariant
                j as int + 1 <= i as int <= n as int,
                n == self.entries@.len(),
                ri <= refs_vec@.len(),
                ai <= alts_vec@.len(),
                walk(self.entries@, j as int + 1, refs_vec@, 0, alts_vec@, 0, tedit, merge)
                    == walk(
                    self.entries@,
                    i as int,
                    refs_vec@,
                    ri as int,
                    alts_vec@,
                    ai as int,
                    tedit,
                    merge,
                ),
            decreases n - i,
        {
            let e = self.entries[i];
            let done = ri == refs_vec.len() && ai == alts_vec.len();
            if done {
                let ee = entry_edit_of(&e);
                if logical_merge(&ee, &tedit, merge) {
                    return Some(false);
                } else {
                    return Some(true);
                }
            }
            match e.kind {
                EntryKind::Insertion => {
                    let want: Option<u8> = if ai < alts_vec.len() {
                        Some(alts_vec[ai])
                    } else {
                        None
                    };
                    if opt_u8_eq(e.record_nt, want) {
                        if ai < alts_vec.len() {
                            ai = ai + 1;
                        }
                    } else {
                        return Some(false);
                    }
                },
                EntryKind::Deletion => {
                    if e.ref_nt.is_some() {
                        if ri < refs_vec.len() {
                            ri = ri + 1;
                        }
                    } else {
                        return Some(false);
                    }
                },
                _ => {
                    let wa: Option<u8> = if ai < alts_vec.len() {
                        Some(alts_vec[ai])
                    } else {
                        None
                    };
                    let wr: Option<u8> = if ri < refs_vec.len() {
                        Some(refs_vec[ri])
                    } else {
                        None
                    };
                    if opt_u8_eq(e.record_nt, wa) && opt_u8_eq(e.ref_nt, wr) {
                        if ri < refs_vec.len() {
                            ri = ri + 1;
                        }
                        if ai < alts_vec.len() {
                            ai = ai + 1;
                        }
                    } else {
                        return Some(false);
                    }
                },
            }
            i = i + 1;
        }
        Some(ri == refs_vec.len() && ai == alts_vec.len())
    }
}

} // verus!
