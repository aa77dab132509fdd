use varlink::variant::parse_position;
use varlink::variant::ParseError;
use varlink::variant::RegionError;
use varlink::Edit;
use varlink::VarFormat;
use varlink::Variant;

#[test]
fn test_parse_position() {
    let pos_str = "12345_12346del";
    let (_, (start, end)) = parse_position(pos_str).unwrap();
    assert_eq!(start, 12345);
    assert_eq!(end, 12346);
    let pos_str = "12345A>G";
    let (_, (start, end)) = parse_position(pos_str).unwrap();
    assert_eq!(start, 12345);
    assert_eq!(end, 12345);
}

#[test]
fn test_parse_snv() {
    let var_str = "1:12345A>G";
    let var = Variant::from_hgvs(var_str).unwrap();
    assert_eq!(var.contig(), "1");
    assert_eq!(var.start(), &12345u32);
    assert_eq!(var.end(), &12345u32);
    assert_eq!(var.edit(), &Edit::Sub);
    assert_eq!(var.refseq(), Some("A"));
    assert_eq!(var.altseq(), Some("G"));
}

#[test]
fn test_parse_insertion() {
    let var_str = "1:12345_12346insATCG";
    let var = Variant::from_hgvs(var_str).unwrap();
    assert_eq!(var.contig(), "1");
    assert_eq!(var.start(), &12345u32);
    assert_eq!(var.end(), &12346u32);
    assert_eq!(var.edit(), &Edit::Ins);
    assert_eq!(var.refseq(), None);
    assert_eq!(var.altseq(), Some("ATCG"));
}

#[test]
fn test_parse_deletion() {
    let var_str = "1:12345_12346del";
    let var = Variant::from_hgvs(var_str).unwrap();
    assert_eq!(var.contig(), "1");
    assert_eq!(var.start(), &12345u32);
    assert_eq!(var.end(), &12346u32);
    assert_eq!(var.edit(), &Edit::Del);
    assert_eq!(var.refseq(), None);
    assert_eq!(var.altseq(), None);
}

#[test]
fn hgvs_accepts_genomic_marker() {
    let var = Variant::from_hgvs("1:g.144852532_144852533insCCC").unwrap();
    assert_eq!(var.start(), &144852532u32);
    assert_eq!(var.end(), &144852533u32);
    assert_eq!(var.edit(), &Edit::Ins);
    assert_eq!(var.altseq(), Some("CCC"));
}

#[test]
fn hgvs_delins() {
    let var = Variant::from_hgvs("1:144854047_144854048delinsTG").unwrap();
    assert_eq!(var.edit(), &Edit::Delins);
    assert_eq!(var.refseq(), None);
    assert_eq!(var.altseq(), Some("TG"));
}

#[test]
fn vcf_snv() {
    let var = Variant::from_vcf("chr1:12345A>G").unwrap();
    assert_eq!(var.edit(), &Edit::Sub);
    assert_eq!(var.start(), &12345u32);
    assert_eq!(var.end(), &12345u32);
    assert_eq!(var.refseq(), Some("A"));
    assert_eq!(var.altseq(), Some("G"));
}

#[test]
fn vcf_deletion_strips_shared_prefix() {
    let var = Variant::from_vcf("chr1:12345AG>A").unwrap();
    assert_eq!(var.edit(), &Edit::Del);
    assert_eq!(var.start(), &12346u32);
    assert_eq!(var.end(), &12346u32);
    assert_eq!(var.refseq(), Some("G"));
    assert_eq!(var.altseq(), None);
}

#[test]
fn vcf_insertion_strips_shared_prefix() {
    let var = Variant::from_vcf("chr1:12345A>AG").unwrap();
    assert_eq!(var.edit(), &Edit::Ins);
    assert_eq!(var.start(), &12345u32);
    assert_eq!(var.end(), &12346u32);
    assert_eq!(var.refseq(), None);
    assert_eq!(var.altseq(), Some("G"));
}

#[test]
fn vcf_delins() {
    let var = Variant::from_vcf("chr1:12345AGC>T").unwrap();
    assert_eq!(var.start(), &12345u32);
    assert_eq!(var.end(), &12347u32);
    assert_eq!(var.edit(), &Edit::Delins);
    assert_eq!(var.contig(), "chr1");
    assert_eq!(var.refseq(), Some("AGC"));
    assert_eq!(var.altseq(), Some("T"));
}

#[test]
fn vcf_identity() {
    let var = Variant::from_vcf("chr1:100AG>AG").unwrap();
    assert_eq!(var.edit(), &Edit::Identity);
    assert_eq!(var.start(), &100u32);
    assert_eq!(var.end(), &101u32);
}

#[test]
fn notations_agree_on_equivalent_variants() {
    let var1 = Variant::from("1:144852532G>GCCC", &VarFormat::Vcf).unwrap();
    let var2 = Variant::from("1:144852632TAA>T", &VarFormat::Vcf).unwrap();
    let var3 = Variant::from("1:g.144852532_144852533insCCC", &VarFormat::Hgvs).unwrap();
    let var4 = Variant::from("1:144852633_144852634del", &VarFormat::Hgvs).unwrap();
    assert_eq!(var1, var3);
    assert_eq!(
        (var2.contig(), var2.start(), var2.end(), var2.edit()),
        (var4.contig(), var4.start(), var4.end(), var4.edit())
    );
}

#[test]
fn hgvs_missing_colon() {
    assert_eq!(Variant::from_hgvs("12345A>G"), Err(ParseError::MissingColon));
}

#[test]
fn hgvs_missing_position() {
    assert_eq!(Variant::from_hgvs("1:xA>G"), Err(ParseError::MissingPosition));
}

#[test]
fn hgvs_position_overflow() {
    assert_eq!(Variant::from_hgvs("1:99999999999A>G"), Err(ParseError::PositionOverflow));
}

#[test]
fn hgvs_missing_edit() {
    assert_eq!(Variant::from_hgvs("1:123A"), Err(ParseError::MissingEdit));
}

#[test]
fn hgvs_missing_sequence() {
    assert_eq!(Variant::from_hgvs("1:123>"), Err(ParseError::MissingSequence));
}

#[test]
fn hgvs_trailing_input() {
    assert_eq!(Variant::from_hgvs("1:123A>Gx"), Err(ParseError::TrailingInput));
}

#[test]
fn hgvs_deletion_needs_no_sequence() {
    let var = Variant::from_hgvs("1:123del").unwrap();
    assert_eq!(var.edit(), &Edit::Del);
    assert_eq!(var.start(), &123u32);
    assert_eq!(var.end(), &123u32);
}

#[test]
fn vcf_missing_ref_sequence() {
    assert_eq!(Variant::from_vcf("1:123>A"), Err(ParseError::MissingSequence));
}

#[test]
fn vcf_missing_separator() {
    assert_eq!(Variant::from_vcf("1:123Ax"), Err(ParseError::MissingEdit));
}

#[test]
fn vcf_trailing_input() {
    assert_eq!(Variant::from_vcf("1:123A>Gx"), Err(ParseError::TrailingInput));
}

#[test]
fn format_names() {
    assert_eq!(VarFormat::from_name("hgvs"), Some(VarFormat::Hgvs));
    assert_eq!(VarFormat::from_name("HGVS"), Some(VarFormat::Hgvs));
    assert_eq!(VarFormat::from_name("Vcf"), Some(VarFormat::Vcf));
    assert_eq!(VarFormat::from_name("xml"), None);
    assert_eq!("vcf".parse::<VarFormat>(), Ok(VarFormat::Vcf));
    assert_eq!("bed".parse::<VarFormat>(), Err(ParseError::UnknownFormat));
}

#[test]
fn affected_lengths() {
    assert_eq!(Variant::from_hgvs("1:100_102del").unwrap().affected_length(), 3);
    assert_eq!(Variant::from_hgvs("1:100_101insATCG").unwrap().affected_length(), 4);
    assert_eq!(Variant::from_hgvs("1:100A>G").unwrap().affected_length(), 1);
    assert_eq!(Variant::from_hgvs("1:100_102delinsTG").unwrap().affected_length(), 2);
    assert_eq!(Variant::from_vcf("1:100AGC>T").unwrap().affected_length(), 3);
    assert_eq!(Variant::from_vcf("1:100AG>AG").unwrap().affected_length(), 0);
}

#[test]
fn merge_region_spans_both_variants() {
    let var1 = Variant::from_hgvs("1:100A>G").unwrap();
    let var2 = Variant::from_hgvs("1:180_181del").unwrap();
    assert_eq!(varlink::variant::merge_region(&var1, &var2), Ok((100, 182)));
}

#[test]
fn merge_region_rejects_contig_mismatch() {
    let var1 = Variant::from_hgvs("1:100A>G").unwrap();
    let var2 = Variant::from_hgvs("2:180_181del").unwrap();
    assert_eq!(varlink::variant::merge_region(&var1, &var2), Err(RegionError::ContigMismatch));
}

#[test]
fn well_formedness_check() {
    assert!(Variant::from_hgvs("1:100_102del").unwrap().check_well_formed());
    // An inverted range is representable but not well formed.
    assert!(!Variant::from_hgvs("1:102_100del").unwrap().check_well_formed());
}
