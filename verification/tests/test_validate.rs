use varlink::AlignEntry;
use varlink::EntryKind;
use varlink::Record;
use varlink::ValidateOptions;
use varlink::Variant;
use varlink::VariantValidate;

fn entry(kind: EntryKind, ref_pos: Option<u32>, ref_nt: Option<u8>, record_nt: Option<u8>) -> AlignEntry {
    AlignEntry { kind, ref_pos, ref_nt, record_nt }
}

/// A read of matches covering `[start0, start0 + bases.len())` (0-based),
/// where `bases[i]` is the reference and read base at `start0 + i`.
fn matching_read(start0: u32, bases: &[u8]) -> Record {
    let mut entries = Vec::new();
    for (i, b) in bases.iter().enumerate() {
        entries.push(entry(
            EntryKind::Match,
            Some(start0 + i as u32),
            Some(*b),
            Some(*b),
        ));
    }
    Record { mapped: true, start: start0, end: start0 + bases.len() as u32, entries }
}

#[test]
fn unmapped_read_is_not_informative() {
    let var = Variant::from_hgvs("1:144852545C>T").unwrap();
    let options = ValidateOptions::default();
    let mut rec = matching_read(144852530, b"GGGGGGGGGGGGGGGGGGGG");
    rec.mapped = false;
    assert!(rec.validate(&var, &options).is_none());
}

#[test]
fn read_outside_region_is_not_informative() {
    let var = Variant::from_hgvs("1:144852545C>T").unwrap();
    let options = ValidateOptions::default();
    // Aligned span ends before the variant starts.
    let rec = matching_read(144852000, b"GGGGGGGGGG");
    assert!(rec.validate(&var, &options).is_none());
}

#[test]
fn partially_overlapping_read_is_not_informative() {
    // The read overlaps the deletion's region but stops inside it: no
    // partial credit, whatever the entries show.
    let var = Variant::from_hgvs("1:144852545_144852550del").unwrap();
    let options = ValidateOptions::default();
    let entries = vec![
        entry(EntryKind::Match, Some(144852543), Some(b'G'), Some(b'G')),
        entry(EntryKind::Deletion, Some(144852544), Some(b'A'), None),
        entry(EntryKind::Deletion, Some(144852545), Some(b'C'), None),
    ];
    let rec = Record { mapped: true, start: 144852500, end: 144852546, entries };
    assert_eq!(rec.validate(&var, &options), None);

    // A read that begins after the region's first base is no evidence either.
    let late = matching_read(144852546, b"GGGGGGGGGG");
    assert_eq!(late.validate(&var, &options), None);
}

#[test]
fn insertion_read_supports_matching_insertion() {
    // A perfect 3-base insertion right at the variant boundary.
    let var = Variant::from_hgvs("1:144852532_144852533insCCC").unwrap();
    let options = ValidateOptions::default();
    let mut entries = vec![entry(
        EntryKind::Match,
        Some(144852531),
        Some(b'G'),
        Some(b'G'),
    )];
    for _ in 0..3 {
        entries.push(entry(EntryKind::Insertion, None, None, Some(b'C')));
    }
    entries.push(entry(EntryKind::Match, Some(144852532), Some(b'T'), Some(b'T')));
    let rec = Record { mapped: true, start: 144852431, end: 144852632, entries };
    assert_eq!(rec.validate(&var, &options), Some(true));

    // The same read refutes an insertion expecting different bases.
    let other = Variant::from_hgvs("1:144852532_144852533insCCG").unwrap();
    assert_eq!(rec.validate(&other, &options), Some(false));
}

#[test]
fn deletion_read_supports_matching_deletion() {
    let var = Variant::from_hgvs("1:144852633_144852634del").unwrap();
    let options = ValidateOptions::default();
    let entries = vec![
        entry(EntryKind::Match, Some(144852631), Some(b'G'), Some(b'G')),
        entry(EntryKind::Deletion, Some(144852632), Some(b'A'), None),
        entry(EntryKind::Deletion, Some(144852633), Some(b'C'), None),
        entry(EntryKind::Match, Some(144852634), Some(b'T'), Some(b'T')),
    ];
    let rec = Record { mapped: true, start: 144852531, end: 144852732, entries };
    assert_eq!(rec.validate(&var, &options), Some(true));

    // A wider deletion is refuted: the walk meets a match too early.
    let wider = Variant::from_hgvs("1:144852633_144852635del").unwrap();
    assert_eq!(rec.validate(&wider, &options), Some(false));
}

#[test]
fn substitution_read_supports_matching_substitution() {
    let var = Variant::from_hgvs("1:144852545C>T").unwrap();
    let options = ValidateOptions::default();
    let entries = vec![
        entry(EntryKind::Match, Some(144852543), Some(b'G'), Some(b'G')),
        entry(EntryKind::Mismatch, Some(144852544), Some(b'C'), Some(b'T')),
        entry(EntryKind::Match, Some(144852545), Some(b'A'), Some(b'A')),
    ];
    let rec = Record { mapped: true, start: 144852500, end: 144852600, entries };
    assert_eq!(rec.validate(&var, &options), Some(true));

    // The same read refutes a substitution to a different base.
    let other = Variant::from_hgvs("1:144852545C>A").unwrap();
    assert_eq!(rec.validate(&other, &options), Some(false));
}

#[test]
fn merge_option_excludes_adjacent_edits() {
    // Two adjacent substitutions carried by one read.
    let var1 = Variant::from_hgvs("1:144854597T>C").unwrap();
    let var2 = Variant::from_hgvs("1:144854598C>T").unwrap();
    let mut options = ValidateOptions::default();
    let entries = vec![
        entry(EntryKind::Match, Some(144854595), Some(b'G'), Some(b'G')),
        entry(EntryKind::Mismatch, Some(144854596), Some(b'T'), Some(b'C')),
        entry(EntryKind::Mismatch, Some(144854597), Some(b'C'), Some(b'T')),
        entry(EntryKind::Match, Some(144854598), Some(b'A'), Some(b'A')),
    ];
    let rec = Record { mapped: true, start: 144854500, end: 144854700, entries };
    // Ignore the read when a distinct adjacent edit exists.
    options.set_merge(true);
    assert_eq!(rec.validate(&var1, &options), Some(false));
    assert_eq!(rec.validate(&var2, &options), Some(false));
    // Include it under the permissive default.
    options.set_merge(false);
    assert_eq!(rec.validate(&var1, &options), Some(true));
    assert_eq!(rec.validate(&var2, &options), Some(true));
}

#[test]
fn delins_read_supports_compound_edit() {
    // A compound edit encoded as a deletion of the old bases followed by an
    // insertion of the new ones.
    let var = Variant::from_hgvs("1:144854047_144854048delinsTG").unwrap();
    let options = ValidateOptions::default();
    let entries = vec![
        entry(EntryKind::Match, Some(144854045), Some(b'A'), Some(b'A')),
        entry(EntryKind::Deletion, Some(144854046), Some(b'A'), None),
        entry(EntryKind::Deletion, Some(144854047), Some(b'C'), None),
        entry(EntryKind::Insertion, None, None, Some(b'T')),
        entry(EntryKind::Insertion, None, None, Some(b'G')),
        entry(EntryKind::Match, Some(144854048), Some(b'T'), Some(b'T')),
    ];
    let rec = Record { mapped: true, start: 144854000, end: 144854100, entries };
    assert_eq!(rec.validate(&var, &options), Some(true));

    // The same read refutes a compound edit inserting other bases.
    let other = Variant::from_hgvs("1:144854047_144854048delinsTT").unwrap();
    assert_eq!(rec.validate(&other, &options), Some(false));
}

#[test]
fn evidence_running_out_refutes() {
    // The read ends before the whole expected edit is confirmed.
    let var = Variant::from_hgvs("1:144852545C>T").unwrap();
    let options = ValidateOptions::default();
    let entries = vec![entry(EntryKind::Match, Some(144852543), Some(b'G'), Some(b'G'))];
    let rec = Record { mapped: true, start: 144852500, end: 144852600, entries };
    assert_eq!(rec.validate(&var, &options), Some(false));
}

#[test]
fn no_entry_at_variant_is_not_informative() {
    // In span by coordinates, but no entry reaches the variant position.
    let var = Variant::from_hgvs("1:144852545C>T").unwrap();
    let options = ValidateOptions::default();
    let entries = vec![entry(EntryKind::Match, Some(144852500), Some(b'G'), Some(b'G'))];
    let rec = Record { mapped: true, start: 144852500, end: 144852600, entries };
    assert_eq!(rec.validate(&var, &options), None);
}
