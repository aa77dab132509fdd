use varlink::Link;
use varlink::Linkage;

#[test]
fn test_infer_cis() {
    let link = Link { both: 101, first: 1, second: 0, neither: 100 };
    assert_eq!(link.infer_linkage(), Some(Linkage::Cis));
}

#[test]
fn test_infer_trans() {
    let link = Link { both: 1, first: 50, second: 70, neither: 100 };
    assert_eq!(link.infer_linkage(), Some(Linkage::Trans));
}

#[test]
fn test_infer_super() {
    let link = Link { both: 28, first: 50, second: 0, neither: 100 };
    assert_eq!(link.infer_linkage(), Some(Linkage::Super));
}

#[test]
fn test_infer_sub() {
    let link = Link { both: 58, first: 1, second: 50, neither: 100 };
    assert_eq!(link.infer_linkage(), Some(Linkage::Sub));
}

#[test]
fn empty_tally_is_undefined() {
    let link = Link { both: 0, first: 0, second: 0, neither: 0 };
    assert_eq!(link.infer_linkage(), None);
}

#[test]
fn empty_tally_with_neither_reads_is_undefined() {
    let link = Link { both: 0, first: 0, second: 0, neither: 42 };
    assert_eq!(link.infer_linkage(), None);
}

#[test]
fn cross_when_joint_and_single_support_are_solid() {
    let link = Link { both: 40, first: 30, second: 25, neither: 10 };
    assert_eq!(link.infer_linkage(), Some(Linkage::Cross));
}

#[test]
fn undefined_when_no_rule_matches() {
    // Every count sits below its rule's floor or above its noise ceiling.
    let link = Link { both: 2, first: 2, second: 2, neither: 0 };
    assert_eq!(link.infer_linkage(), None);
}

#[test]
fn default_tally_is_empty() {
    let link = Link::default();
    assert_eq!(link.both, 0);
    assert_eq!(link.first, 0);
    assert_eq!(link.second, 0);
    assert_eq!(link.neither, 0);
}

#[test]
fn linkage_names() {
    assert_eq!(Linkage::Cis.as_str(), "cis");
    assert_eq!(Linkage::Trans.as_str(), "trans");
    assert_eq!(Linkage::Super.as_str(), "super");
    assert_eq!(Linkage::Sub.as_str(), "sub");
    assert_eq!(Linkage::Cross.as_str(), "cross");
}

#[test]
fn report_with_conclusion() {
    let link = Link { both: 101, first: 1, second: 0, neither: 100 };
    assert_eq!(
        link.report(),
        "{\n  \"both\": 101,\n  \"first\": 1,\n  \"second\": 0,\n  \"neither\": 100,\n  \"conclusion\": \"cis\"\n}"
    );
}

#[test]
fn report_undefined() {
    let link = Link { both: 0, first: 0, second: 0, neither: 7 };
    assert_eq!(
        link.report(),
        "{\n  \"both\": 0,\n  \"first\": 0,\n  \"second\": 0,\n  \"neither\": 7,\n  \"conclusion\": \"undefined\"\n}"
    );
}
