use frametally::threads::resolve_thread_count;
use frametally::threads::resolve_thread_count_auto;
use frametally::threads::ThreadArg;
use frametally::threads::ThreadNotice;

#[test]
fn minus_one_resolves_to_the_core_count() {
    let d = resolve_thread_count(ThreadArg::Value(-1), 8);
    assert_eq!(d.count, 8);
    assert_eq!(d.notice, ThreadNotice::CoreCount);
}

#[test]
fn zero_falls_back_to_one_with_a_warning() {
    let d = resolve_thread_count(ThreadArg::Value(0), 8);
    assert_eq!(d.count, 1);
    assert_eq!(d.notice, ThreadNotice::InvalidWarning);
}

#[test]
fn other_negatives_fall_back_to_one_with_a_warning() {
    let d = resolve_thread_count(ThreadArg::Value(-7), 8);
    assert_eq!(d.count, 1);
    assert_eq!(d.notice, ThreadNotice::InvalidWarning);
}

#[test]
fn omitted_defaults_to_one_silently() {
    let d = resolve_thread_count(ThreadArg::Omitted, 8);
    assert_eq!(d.count, 1);
    assert_eq!(d.notice, ThreadNotice::Silent);
}

#[test]
fn unparsable_falls_back_to_one_with_a_warning() {
    let d = resolve_thread_count(ThreadArg::Unparsable, 8);
    assert_eq!(d.count, 1);
    assert_eq!(d.notice, ThreadNotice::InvalidWarning);
}

#[test]
fn positive_values_are_used_directly() {
    let d = resolve_thread_count(ThreadArg::Value(4), 8);
    assert_eq!(d.count, 4);
    assert_eq!(d.notice, ThreadNotice::Silent);
}

#[test]
fn auto_resolution_detects_at_least_one_core() {
    let d = resolve_thread_count_auto(ThreadArg::Value(-1));
    assert!(d.count >= 1);
    assert_eq!(d.notice, ThreadNotice::CoreCount);
}

#[test]
fn auto_resolution_ignores_the_host_for_plain_arguments() {
    let d = resolve_thread_count_auto(ThreadArg::Omitted);
    assert_eq!(d.count, 1);
    assert_eq!(d.notice, ThreadNotice::Silent);
    let d = resolve_thread_count_auto(ThreadArg::Value(3));
    assert_eq!(d.count, 3);
    assert_eq!(d.notice, ThreadNotice::Silent);
}
