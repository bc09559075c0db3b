use stellar_k8s::backup::consistency_group::{
    meets_rpo, volume_snapshot_manifest, AppHook, BackupRun, BackupStep, ConsistencyGroup, GroupError, GroupMember,
    GroupSnapshot, QuiesceMethod, RestoreAction, RestoreReport, RestoreRun, RestoreStep, Stage,
    VolumeSnapshotRecord,
    CAPTURE_LABEL, GROUP_LABEL,
};

const HOUR: i64 = 3_600_000_000;

fn member(name: &str, deps: &[&str], hook: bool) -> GroupMember {
    GroupMember {
        name: name.into(),
        pvcs: vec![format!("{name}-data")],
        depends_on: deps.iter().map(|d| d.to_string()).collect(),
        hook: if hook {
            Some(AppHook { quiesce: vec!["freeze".into()], unquiesce: vec!["thaw".into()] })
        } else {
            None
        },
        verify: Some(vec!["check".into()]),
    }
}

/// DB <- cache, DB <- queue.
fn three_tier() -> ConsistencyGroup {
    ConsistencyGroup {
        name: "app".into(),
        namespace: "stellar".into(),
        members: vec![
            member("queue", &["db"], false),
            member("cache", &["db"], false),
            member("db", &[], true),
        ],
        rpo_seconds: 3600,
    }
}

#[derive(Default)]
struct Recorder {
    log: Vec<String>,
    fail_quiesce: Option<&'static str>,
    fail_verify: Option<&'static str>,
}

fn run_backup(
    g: &ConsistencyGroup,
    exec: &mut Recorder,
    id: &str,
    now: i64,
) -> Result<GroupSnapshot, GroupError> {
    let mut run = BackupRun::start(g)?;
    loop {
        let step = match run.pending() {
            Some(step) => step.clone(),
            None => return run.finish(id, now),
        };
        match step {
            BackupStep::Quiesce { member, .. } => {
                exec.log.push(format!("quiesce:{member}"));
                if exec.fail_quiesce == Some(member.as_str()) {
                    run.quiesce_result(Err("boom".into()));
                } else {
                    run.quiesce_result(Ok(()));
                }
            }
            BackupStep::SnapshotGroup { volumes } => {
                exec.log.push("snapshot".into());
                run.snapshot_result(Ok(volumes
                    .iter()
                    .map(|(m, p)| VolumeSnapshotRecord {
                        member: m.clone(),
                        pvc: p.clone(),
                        snapshot_name: format!("{id}-{p}"),
                        ready_at: now,
                    })
                    .collect()));
            }
            BackupStep::Unquiesce { member, .. } => {
                exec.log.push(format!("unquiesce:{member}"));
                run.unquiesce_result(Ok(()));
            }
        }
    }
}

fn run_restore(g: &ConsistencyGroup, exec: &mut Recorder) -> Result<RestoreReport, GroupError> {
    let mut run = RestoreRun::start(g)?;
    loop {
        match run.next(g) {
            RestoreAction::Finished => return Ok(run.report),
            RestoreAction::Blocked { member, dependency } => {
                let name = g.members[member].depends_on[dependency].clone();
                run.skip(&name);
            }
            RestoreAction::Run { member, stage } => {
                let name = g.members[member].name.clone();
                match stage {
                    Stage::RestoreVolumes => exec.log.push(format!("restore:{name}")),
                    Stage::StartAndAwaitReady => {}
                    Stage::Verify => exec.log.push(format!("verify:{name}")),
                }
                if stage == Stage::Verify && exec.fail_verify == Some(name.as_str()) {
                    run.record(Err("integrity check failed".into()));
                } else {
                    run.record(Ok(()));
                }
            }
        }
    }
}

#[test]
fn members_are_restored_step_by_step() {
    let mut g = three_tier();
    g.members = vec![member("db", &[], false), member("app", &["db"], false)];
    let mut run = RestoreRun::start(&g).unwrap();
    for stage in [Stage::RestoreVolumes, Stage::StartAndAwaitReady, Stage::Verify] {
        assert!(matches!(run.next(&g), RestoreAction::Run { member: 0, stage: s } if s == stage));
        assert!(run.report.restored.is_empty());
        run.record(Ok(()));
    }
    assert_eq!(run.report.restored, vec!["db"]);
    run.record(Ok(()));
    assert!(matches!(run.next(&g), RestoreAction::Run { member: 1, stage: Stage::StartAndAwaitReady }));
    run.record(Err("not ready".into()));
    assert!(matches!(run.next(&g), RestoreAction::Finished));
    assert_eq!(run.report.restored, vec!["db"]);
    assert_eq!(run.report.errors[0].reason, "not ready");
}

#[test]
fn dependency_order_is_deterministic() {
    assert_eq!(three_tier().dependency_order().unwrap(), vec!["db", "cache", "queue"]);
}

#[test]
fn rejects_cycles_and_unknown_deps() {
    let mut g = three_tier();
    g.members[2].depends_on = vec!["queue".into()];
    assert!(matches!(g.dependency_order(), Err(GroupError::Cycle(_))));

    let mut g = three_tier();
    g.members[0].depends_on = vec!["missing".into()];
    assert!(matches!(g.dependency_order(), Err(GroupError::UnknownDependency { .. })));
}

#[test]
fn a_repeated_dependency_is_no_cycle() {
    let mut g = three_tier();
    g.members = vec![member("db", &[], false), member("app", &["db", "db"], false)];
    assert_eq!(g.dependency_order(), Ok(vec!["db".to_string(), "app".to_string()]));
}

#[test]
fn planning_errors_are_told_apart() {
    let mut g = three_tier();
    g.members.clear();
    assert_eq!(g.dependency_order(), Err(GroupError::Empty));
    assert_eq!(GroupError::Empty.message(), "consistency group has no members");

    let mut g = three_tier();
    g.members[1].name = "db".into();
    let e = g.dependency_order().unwrap_err();
    assert_eq!(e, GroupError::DuplicateMember("db".into()));
    assert_eq!(e.message(), "duplicate member 'db'");

    let mut g = three_tier();
    g.members[0].depends_on = vec!["missing".into()];
    assert_eq!(
        g.dependency_order().unwrap_err().message(),
        "member 'queue' depends on unknown member 'missing'"
    );

    let mut g = three_tier();
    g.members[2].depends_on = vec!["queue".into()];
    let e = g.backup_plan().unwrap_err();
    assert_eq!(e, GroupError::Cycle(vec!["cache".into(), "db".into(), "queue".into()]));
    assert_eq!(e.message(), "dependency cycle involving: [\"cache\", \"db\", \"queue\"]");
    assert_eq!(
        GroupError::StepFailed { member: "db".into(), reason: "boom".into() }.message(),
        "step failed for 'db': boom"
    );
}

#[test]
fn backup_plan_uses_native_hook_or_fs_fallback() {
    let plan = three_tier().backup_plan().unwrap();
    assert_eq!(plan.len(), 7);
    assert_eq!(
        plan[2],
        BackupStep::Quiesce {
            member: "db".into(),
            method: QuiesceMethod::AppNative(AppHook {
                quiesce: vec!["freeze".into()],
                unquiesce: vec!["thaw".into()],
            }),
        }
    );
    assert!(matches!(&plan[0], BackupStep::Quiesce { method: QuiesceMethod::FilesystemFreeze, .. }));
    match &plan[3] {
        BackupStep::SnapshotGroup { volumes } => assert_eq!(volumes.len(), 3),
        other => panic!("expected group snapshot, got {other:?}"),
    }
}

#[test]
fn restore_plan_goes_member_by_member() {
    let plan = three_tier().restore_plan().unwrap();
    assert_eq!(plan.len(), 9);
    assert_eq!(plan[0], RestoreStep::RestoreVolumes { member: "db".into(), pvcs: vec!["db-data".into()] });
    assert_eq!(plan[1], RestoreStep::StartAndAwaitReady { member: "db".into() });
    assert_eq!(plan[2], RestoreStep::Verify { member: "db".into() });
    assert_eq!(plan[8], RestoreStep::Verify { member: "queue".into() });
}

#[test]
fn three_tier_backup_and_restore_respects_order() {
    let g = three_tier();
    let mut exec = Recorder::default();
    let snap = run_backup(&g, &mut exec, "cap-1", 0).unwrap();
    assert_eq!(snap.volumes.len(), 3);
    assert_eq!(snap.capture_id, "cap-1");

    let report = run_restore(&g, &mut exec).unwrap();
    assert!(report.is_consistent());
    assert_eq!(report.restored, vec!["db", "cache", "queue"]);
    assert_eq!(
        exec.log,
        vec![
            "quiesce:queue",
            "quiesce:cache",
            "quiesce:db",
            "snapshot",
            "unquiesce:db",
            "unquiesce:cache",
            "unquiesce:queue",
            "restore:db",
            "verify:db",
            "restore:cache",
            "verify:cache",
            "restore:queue",
            "verify:queue",
        ]
    );
}

#[test]
fn failed_quiesce_still_unquiesces_and_skips_snapshot() {
    let g = three_tier();
    let mut exec = Recorder { fail_quiesce: Some("cache"), ..Default::default() };
    let err = run_backup(&g, &mut exec, "cap-1", 0).unwrap_err();
    assert!(matches!(err, GroupError::StepFailed { member, .. } if member == "cache"));
    assert_eq!(exec.log, vec!["quiesce:queue", "quiesce:cache", "unquiesce:queue"]);
}

#[test]
fn failed_unquiesce_spoils_the_capture() {
    let g = three_tier();
    let mut run = BackupRun::start(&g).unwrap_or_else(|_| panic!("no plan"));
    for _ in 0..3 {
        run.quiesce_result(Ok(()));
    }
    run.snapshot_result(Ok(vec![]));
    run.unquiesce_result(Err("stuck".into()));
    run.unquiesce_result(Err("late".into()));
    run.unquiesce_result(Ok(()));
    assert!(run.pending().is_none());
    match run.finish("c", 0) {
        Err(GroupError::StepFailed { member, reason }) => {
            assert_eq!(member, "db");
            assert_eq!(reason, "stuck");
        }
        _ => panic!("expected a failure"),
    }
}

#[test]
fn failed_snapshot_names_the_group() {
    let g = three_tier();
    let mut run = BackupRun::start(&g).unwrap_or_else(|_| panic!("no plan"));
    for _ in 0..3 {
        run.quiesce_result(Ok(()));
    }
    run.snapshot_result(Err("no space".into()));
    for _ in 0..3 {
        run.unquiesce_result(Ok(()));
    }
    assert_eq!(
        run.finish("c", 0),
        Err(GroupError::StepFailed { member: "app".into(), reason: "no space".into() })
    );
}

#[test]
fn failed_verify_blocks_dependents() {
    let g = three_tier();
    let mut exec = Recorder { fail_verify: Some("db"), ..Default::default() };
    run_backup(&g, &mut exec, "cap-1", 0).unwrap();
    let report = run_restore(&g, &mut exec).unwrap();
    assert!(!report.is_consistent());
    assert!(report.restored.is_empty());
    assert_eq!(report.errors.len(), 3);
    assert_eq!(report.errors[1].reason, "dependency 'db' failed");
}

#[test]
fn rpo_is_evaluated_for_the_whole_group() {
    let g = three_tier();
    let t0: i64 = 1_700_000_000_000_000;
    let vol = |m: &str| VolumeSnapshotRecord {
        member: m.into(),
        pvc: format!("{m}-data"),
        snapshot_name: "s".into(),
        ready_at: t0,
    };
    let mut snap = GroupSnapshot {
        group: "app".into(),
        capture_id: "c".into(),
        captured_at: t0,
        volumes: vec![vol("db"), vol("cache"), vol("queue")],
    };
    assert!(meets_rpo(&g, &snap, t0 + HOUR / 2));
    assert!(meets_rpo(&g, &snap, t0 + HOUR));
    assert!(!meets_rpo(&g, &snap, t0 + HOUR + 1));
    assert!(!meets_rpo(&g, &snap, t0 + 2 * HOUR));
    snap.volumes.pop();
    assert!(!meets_rpo(&g, &snap, t0));
}

#[test]
fn snapshot_manifest_carries_group_labels() {
    let g = three_tier();
    let m = volume_snapshot_manifest(&g, "cap-1", "db", "db-data", "csi");
    let labels = m.get("metadata").unwrap().get("labels").unwrap();
    assert_eq!(labels.get(GROUP_LABEL).unwrap().as_str(), Some("app"));
    assert_eq!(labels.get(CAPTURE_LABEL).unwrap().as_str(), Some("cap-1"));
    let source = m.get("spec").unwrap().get("source").unwrap();
    assert_eq!(source.get("persistentVolumeClaimName").unwrap().as_str(), Some("db-data"));
    assert_eq!(m.get("metadata").unwrap().get("name").unwrap().as_str(), Some("cap-1-db-data"));
}
