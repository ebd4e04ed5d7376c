use ioc_inventory::builder::find_builder_iocs;
use ioc_inventory::inventory::merge_iocs;
use ioc_inventory::ioc::PartialIOC;
use ioc_inventory::order::compare_names;
use ioc_inventory::paths::{
    builder_dir, builder_readme_path, configured_readme_path, descriptor_name, prefix_before,
};
use ioc_inventory::pattern::{Pattern, PatternError};
use ioc_inventory::table::{find_configured_iocs, split_redirect_line, RedirectEntry};
use ioc_inventory::version::{classify_version, find_release};
use std::cmp::Ordering;

fn lines(v: &[&str]) -> Vec<String> {
    v.iter().map(|s| s.to_string()).collect()
}

fn query(q: &str) -> Pattern {
    Pattern::new(q).unwrap()
}

fn entry<'a>(r: &'a [RedirectEntry], name: &str) -> Option<&'a RedirectEntry> {
    r.iter().find(|e| e.name == name)
}

fn record(name: &str, version: &str, builder: bool) -> PartialIOC {
    PartialIOC::new(name.to_string(), version.to_string(), None, builder)
}

#[test]
fn release_segment_must_follow_a_slash() {
    let r = find_configured_iocs(
        &lines(&["BL07I-DI-IOC-01   /dls_sw/prod/R3-14-12-7/support/module/bin"]),
        &query("BL07I"),
    );
    assert_eq!(r.len(), 1);
    assert_eq!(r[0].name, "BL07I-DI-IOC-01");
    assert_eq!(r[0].path, "/dls_sw/prod/R3-14-12-7/support/module/bin");
    assert_eq!(r[0].version, "?");
}

#[test]
fn release_segment_gives_version() {
    let r = find_configured_iocs(
        &lines(&["BL07I-DI-IOC-01   /dls_sw/prod/R3.14.12.7/support/module/3-14-12-7/bin"]),
        &query("BL07I"),
    );
    assert_eq!(r.len(), 1);
    assert_eq!(r[0].name, "BL07I-DI-IOC-01");
    assert_eq!(r[0].version, "3-14-12-7");
}

#[test]
fn work_path_gives_work() {
    let r = find_configured_iocs(
        &lines(&["BL07I-VA-IOC-02   /dls_sw/work/tmp/bin"]),
        &query("BL07I"),
    );
    assert_eq!(r.len(), 1);
    assert_eq!(r[0].name, "BL07I-VA-IOC-02");
    assert_eq!(r[0].version, "WORK");
}

#[test]
fn other_beamline_line_is_skipped() {
    let r = find_configured_iocs(
        &lines(&["BL03I-DI-IOC-09   /dls_sw/prod/1-0/bin"]),
        &query("BL07I"),
    );
    assert!(r.is_empty());
}

#[test]
fn builder_descriptor_yields_builder_record() {
    let files = lines(&["BL07I-EA-IOC-05.xml", "BL07I-EA-IOC-05_README", "notes.txt"]);
    let names = find_builder_iocs(&files, &query("BL07I"));
    assert_eq!(names, vec!["BL07I-EA-IOC-05".to_string()]);
    let rec = PartialIOC::from_builder_ioc(names[0].clone(), Some("Eiger detector IOC".to_string()));
    let merged = merge_iocs(&Vec::new(), &vec![rec]);
    assert_eq!(merged.len(), 1);
    assert_eq!(merged[0].name, "BL07I-EA-IOC-05");
    assert_eq!(merged[0].version, "BUILDER");
    assert_eq!(merged[0].description, "Eiger detector IOC");
    assert!(merged[0].builder);
}

#[test]
fn each_selected_line_yields_one_record() {
    let table = lines(&[
        "BL07I-DI-IOC-01 /dls_sw/prod/R3.14.12.7/ioc/BL07I/1-0/bin",
        "# comment line",
        "",
        "BL07I-MO-IOC-03\t/dls_sw/prod/R3.14.12.7/ioc/BL07I/2-5/bin",
        "BL03I-DI-IOC-09 /dls_sw/prod/1-0/bin",
        "BL07I-DI-IOC-01 /dls_sw/work/R3.14.12.7/ioc/BL07I/bin",
        "BL07I-XX-IOC-04 /a/b extra",
    ]);
    let r = find_configured_iocs(&table, &query("BL07I"));
    assert_eq!(r.len(), 2);
    let di = entry(&r, "BL07I-DI-IOC-01").unwrap();
    assert_eq!(di.path, "/dls_sw/work/R3.14.12.7/ioc/BL07I/bin");
    assert_eq!(di.version, "WORK");
    let mo = entry(&r, "BL07I-MO-IOC-03").unwrap();
    assert_eq!(mo.version, "2-5");
    assert!(entry(&r, "BL03I-DI-IOC-09").is_none());
}

#[test]
fn regex_query_selects_by_match() {
    let table = lines(&[
        "BL07I-EA-IOC-01 /dls_sw/prod/1-0/bin",
        "BL07I-DI-IOC-02 /dls_sw/prod/1-1/bin",
    ]);
    let r = find_configured_iocs(&table, &query("BL07I.*EA"));
    assert_eq!(r.len(), 1);
    assert_eq!(r[0].name, "BL07I-EA-IOC-01");
    assert_eq!(r[0].version, "1-0");
}

#[test]
fn invalid_query_is_rejected() {
    match Pattern::new("BL07I(") {
        Err(PatternError::Invalid(t)) => assert_eq!(t, "BL07I("),
        Ok(_) => panic!("an unbalanced group must not compile"),
    }
    assert_eq!(query("BL07I").as_str(), "BL07I");
}

#[test]
fn version_classification() {
    assert_eq!(classify_version("/dls_sw/prod/R3.14.12.7/support/motor/7-2-1/bin"), "7-2-1");
    assert_eq!(classify_version("/dls_sw/prod/1-0/x/2-0/bin"), "1-0");
    assert_eq!(classify_version("/dls_sw/work/1-0/bin"), "1-0");
    assert_eq!(classify_version("/dls_sw/work/R3.14.12.7/ioc/bin"), "WORK");
    assert_eq!(classify_version("/dls_sw/prod/R3.14.12.7/ioc/bin"), "?");
    assert_eq!(classify_version("/dls_sw/prod/10/bin"), "?");
    assert_eq!(classify_version("/dls_sw/prod/1--2/bin"), "?");
    assert_eq!(classify_version("/dls_sw/prod/1-2-/bin"), "?");
    assert_eq!(classify_version("/dls_sw/prod/1-2"), "?");
    assert_eq!(classify_version(""), "?");
    assert_eq!(find_release("/a/12-34/b"), Some("12-34".to_string()));
    assert_eq!(find_release("/a/12.34/b"), None);
}

#[test]
fn redirect_line_shape() {
    assert_eq!(
        split_redirect_line("NAME \t /path/x"),
        Some(("NAME".to_string(), "/path/x".to_string()))
    );
    assert_eq!(split_redirect_line("NAME"), None);
    assert_eq!(split_redirect_line(" NAME /p"), None);
    assert_eq!(split_redirect_line("NAME /p "), None);
    assert_eq!(split_redirect_line("NAME /p q"), None);
    assert_eq!(split_redirect_line(""), None);
}

#[test]
fn merge_flag_commutes() {
    let a = merge_iocs(&vec![record("X", "1-0", false)], &vec![record("X", "BUILDER", true)]);
    let b = merge_iocs(&vec![record("X", "BUILDER", true)], &vec![record("X", "1-0", false)]);
    assert_eq!(a.len(), 1);
    assert_eq!(b.len(), 1);
    assert!(a[0].builder);
    assert!(b[0].builder);
    assert_eq!(a[0].version, "1-0");
}

#[test]
fn configured_record_wins_and_takes_builder_flag() {
    let configured = vec![PartialIOC::from_configured_ioc(
        "BL07I-EA-IOC-05".to_string(),
        "4-2".to_string(),
        Some("from the table".to_string()),
    )];
    let builder = vec![PartialIOC::from_builder_ioc(
        "BL07I-EA-IOC-05".to_string(),
        Some("from the builder".to_string()),
    )];
    let m = merge_iocs(&configured, &builder);
    assert_eq!(m.len(), 1);
    assert_eq!(m[0].version, "4-2");
    assert_eq!(m[0].description, "from the table");
    assert!(m[0].builder);
}

#[test]
fn output_sorted_regardless_of_input_order() {
    let c1 = vec![record("C", "1-0", false), record("A", "1-0", false)];
    let b1 = vec![record("B", "BUILDER", true), record("A", "BUILDER", true)];
    let c2 = vec![record("A", "1-0", false), record("C", "1-0", false)];
    let b2 = vec![record("A", "BUILDER", true), record("B", "BUILDER", true)];
    let r1 = merge_iocs(&c1, &b1);
    let r2 = merge_iocs(&c2, &b2);
    let n1: Vec<&str> = r1.iter().map(|x| x.name.as_str()).collect();
    let n2: Vec<&str> = r2.iter().map(|x| x.name.as_str()).collect();
    assert_eq!(n1, vec!["A", "B", "C"]);
    assert_eq!(n1, n2);
    assert!(r1[0].builder && !r1[2].builder);
    assert_eq!(r1[1].version, "BUILDER");
}

#[test]
fn name_order_is_code_point_order() {
    assert_eq!(compare_names("BL07I-A", "BL07I-B"), Ordering::Less);
    assert_eq!(compare_names("BL07I", "BL07I-A"), Ordering::Less);
    assert_eq!(compare_names("b", "B"), Ordering::Greater);
    assert_eq!(compare_names("same", "same"), Ordering::Equal);
    let x = record("A", "?", false);
    let y = record("B", "?", false);
    assert!(x.precedes(&y));
    assert!(!y.precedes(&x));
    assert_eq!(x.cmp_name(&y), Ordering::Less);
    assert!(x.same_name(&record("A", "1-0", true)));
}

#[test]
fn add_assign_ors_builder_flag_only() {
    let mut x = record("A", "1-0", false);
    x.add_assign(record("A", "BUILDER", true));
    assert!(x.builder);
    assert_eq!(x.version, "1-0");
    let mut y = record("A", "1-0", true);
    y.add_assign(record("A", "BUILDER", false));
    assert!(y.builder);
}

#[test]
fn missing_readme_gives_empty_description() {
    let r = PartialIOC::from_configured_ioc("A".to_string(), "1-0".to_string(), None);
    assert_eq!(r.description, "");
    assert!(!r.builder);
}

#[test]
fn readme_locations() {
    assert_eq!(
        configured_readme_path("/dls_sw/prod/R3.14.12.7/ioc/BL07I/1-0/bin/linux-x86_64/st.sh"),
        "/dls_sw/prod/R3.14.12.7/ioc/BL07I/1-0/README"
    );
    assert_eq!(configured_readme_path("/opt/x"), "/opt/x/README");
    assert_eq!(builder_dir("BL07I"), "/dls_sw/work/R3.14.12.7/support/BL07I-BUILDER/etc/makeIocs");
    assert_eq!(builder_readme_path("/d", "BL07I-EA-IOC-05"), "/d/BL07I-EA-IOC-05_README");
    assert_eq!(prefix_before("a/bin/b/bin/c", "/bin/"), "a");
}

#[test]
fn descriptor_names() {
    assert_eq!(descriptor_name("BL07I-EA-IOC-05.xml"), Some("BL07I-EA-IOC-05".to_string()));
    assert_eq!(descriptor_name("a.b.xml"), Some("a".to_string()));
    assert_eq!(descriptor_name("a.xml.bak"), None);
    assert_eq!(descriptor_name("a_README"), None);
    let files = lines(&["a.xml", "a.b.xml", "BL07I-X.xml"]);
    assert_eq!(find_builder_iocs(&files, &query("^a$")), vec!["a".to_string()]);
}
