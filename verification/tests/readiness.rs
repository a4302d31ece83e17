use sl_viewer::readiness::CapabilityReadiness;
use std::collections::BTreeMap;

#[test]
fn readiness_starts_from_seed_capabilities() {
    let mut caps = BTreeMap::new();
    caps.insert(String::from("EventQueueGet"), String::from("https://sim/eq"));
    caps.insert(String::from("RegionObjects"), String::from("https://sim/ro"));
    let readiness = CapabilityReadiness::init_capability_readiness(Some(&caps));
    assert_eq!(
        readiness.summarize_capability_readiness(),
        "EventQueueGet(a=yes,i=0,ok=0,err=0,last=none);\
InterestList(a=no,i=0,ok=0,err=0,last=none);\
RegionObjects(a=yes,i=0,ok=0,err=0,last=none);\
UntrustedSimulatorMessage(a=no,i=0,ok=0,err=0,last=none)"
    );
}

#[test]
fn readiness_counts_invocations_and_answers() {
    let mut readiness = CapabilityReadiness::init_capability_readiness(None);
    readiness.mark_capability_invocation_started("InterestList");
    readiness.mark_capability_invocation_result("InterestList", Ok("200"));
    readiness.mark_capability_invocation_started("InterestList");
    readiness.mark_capability_invocation_result("Aardvark", Err("timeout"));
    let summary = readiness.summarize_capability_readiness();
    assert!(summary.starts_with("Aardvark(a=no,i=0,ok=0,err=1,last=err:timeout);EventQueueGet("));
    assert!(summary.contains("InterestList(a=no,i=2,ok=1,err=0,last=invoked)"));
    assert!(summary.ends_with("UntrustedSimulatorMessage(a=no,i=0,ok=0,err=0,last=none)"));
}
