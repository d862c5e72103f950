use cnc_remedy::reader::get_cnc_name;
use cnc_remedy::rename::{
    candidate_file_name, dedup_step, overwrite_enabled, overwrite_step, prefixed_name, DedupStep,
    OverwriteStep,
};
use cnc_remedy::settings::Extra;

fn extra_of(pairs: &[(&str, &str)]) -> Extra {
    let mut e = Extra::new();
    for (k, v) in pairs {
        e.insert(k.to_string(), v.to_string());
    }
    e
}

fn renamed(content: &str, extra: &Extra) -> Option<String> {
    let (name, ext) = get_cnc_name("source.nc", content.as_bytes())?;
    Some(candidate_file_name(&prefixed_name(&name, extra), &ext, 0))
}

#[test]
fn execute_unknown_file_returns_info() {
    assert_eq!(renamed("", &Extra::new()), None);
}

#[test]
fn prefix_applied_to_name() {
    let extra = extra_of(&[("prefix", "NC_")]);
    assert_eq!(renamed("%\nO0001(MYPROG)", &extra), Some("NC_MYPROG".to_string()));
}

#[test]
fn suffix_applied_to_name() {
    let extra = extra_of(&[("suffix", "_v2")]);
    assert_eq!(renamed("%\nO0001(MYPROG)", &extra), Some("MYPROG_v2".to_string()));
}

#[test]
fn prefix_and_suffix_both_applied() {
    let extra = extra_of(&[("prefix", "NC_"), ("suffix", "_v2")]);
    assert_eq!(renamed("%\nO0001(MYPROG)", &extra), Some("NC_MYPROG_v2".to_string()));
}

#[test]
fn overwrite_no_conflict_renames_normally() {
    let extra = extra_of(&[("overwrite", "true")]);
    assert!(overwrite_enabled(&extra));
    assert_eq!(renamed("%\nO0001(MYPROG)", &extra), Some("MYPROG".to_string()));
    assert_eq!(overwrite_step(false, false, false), OverwriteStep::Rename);
}

#[test]
fn overwrite_keeps_the_newer_file() {
    assert_eq!(overwrite_step(true, true, false), OverwriteStep::NotNeeded);
    assert_eq!(overwrite_step(false, true, true), OverwriteStep::NewerExists);
    assert_eq!(overwrite_step(false, true, false), OverwriteStep::Replace);
    assert!(!overwrite_enabled(&extra_of(&[("overwrite", "false")])));
    assert!(!overwrite_enabled(&Extra::new()));
}

#[test]
fn candidate_names_number_the_copies() {
    assert_eq!(candidate_file_name("O0001", "mpf", 0), "O0001.mpf");
    assert_eq!(candidate_file_name("O0001", "mpf", 1), "O0001 (1).mpf");
    assert_eq!(candidate_file_name("O0001", "", 12), "O0001 (12)");
    assert_ne!(candidate_file_name("A", "", 1), candidate_file_name("A", "", 11));
}

#[test]
fn dedup_steps_follow_the_search() {
    assert_eq!(dedup_step(0, false, false), DedupStep::Take);
    assert_eq!(dedup_step(0, true, true), DedupStep::AlreadyNamed);
    assert_eq!(dedup_step(0, true, false), DedupStep::TryNext(1));
    assert_eq!(dedup_step(7, true, false), DedupStep::TryNext(8));
}
