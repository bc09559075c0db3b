use stellar_k8s::migration_safety::{
    prod_column, referenced_tables, run_gates, statements, xml_escape, Gate, MigrationFile, ProductionSchema,
};

fn migration(up: &str, down: &str) -> MigrationFile {
    MigrationFile {
        version: 4,
        name: "test_migration".to_string(),
        up_sql: up.to_string(),
        down_sql: down.to_string(),
    }
}

fn prod() -> ProductionSchema {
    ProductionSchema::new().with_table(
        "ledger",
        vec![
            prod_column("seq", "bigint", false),
            prod_column("hash", "text", false),
        ],
    )
}

#[test]
fn an_index_is_rolled_back_by_dropping_it() {
    let migration = MigrationFile {
        version: 7,
        name: "add_ledger_index".to_string(),
        up_sql: "CREATE INDEX CONCURRENTLY idx_ledger ON ledger (seq);".to_string(),
        down_sql: "DROP INDEX idx_ledger;".to_string(),
    };
    let report = run_gates(&migration, &ProductionSchema::new());
    assert!(report.passed());
    assert!(report.to_junit_xml().contains("<testsuite name=\"migration-0007-add_ledger_index\""));
}

#[test]
fn safe_concurrent_index_passes_all_gates() {
    let report = run_gates(
        &migration(
            "CREATE INDEX CONCURRENTLY idx_ledger_seq ON ledger (seq);",
            "DROP INDEX idx_ledger_seq;",
        ),
        &prod(),
    );
    assert!(report.passed(), "{report:?}");
    assert_eq!(report.failures(), 0);
}

#[test]
fn anti_pattern_missing_rollback_is_blocked() {
    let report = run_gates(
        &migration("ALTER TABLE ledger ADD COLUMN note TEXT;", ""),
        &prod(),
    );
    assert!(!report.passed());
    assert!(report
        .results
        .iter()
        .any(|r| r.gate == Gate::Rollback && !r.passed));
}

#[test]
fn anti_pattern_breaking_column_drop_is_blocked() {
    let report = run_gates(
        &migration(
            "ALTER TABLE ledger DROP COLUMN hash;",
            "ALTER TABLE ledger ADD COLUMN hash TEXT;",
        ),
        &prod(),
    );
    assert!(!report.passed());
    assert!(report.results.iter().any(|r| !r.passed));
}

#[test]
fn anti_pattern_long_lock_index_is_blocked() {
    let report = run_gates(
        &migration(
            "CREATE INDEX idx_ledger_hash ON ledger (hash);",
            "DROP INDEX idx_ledger_hash;",
        ),
        &prod(),
    );
    assert!(!report.passed());
    assert!(report
        .results
        .iter()
        .any(|r| r.gate == Gate::LockRisk && !r.passed));
}

#[test]
fn anti_pattern_mismatched_type_change_is_blocked() {
    let report = run_gates(
        &migration(
            "ALTER TABLE ledger ALTER COLUMN seq TYPE INTEGER;",
            "ALTER TABLE ledger ALTER COLUMN seq TYPE BIGINT;",
        ),
        &prod(),
    );
    assert!(!report.passed());
}

#[test]
fn anti_pattern_partial_index_is_blocked() {
    let report = run_gates(
        &migration(
            "CREATE INDEX CONCURRENTLY idx_partial ON ledger (seq) WHERE seq > 100;",
            "DROP INDEX idx_partial;",
        ),
        &prod(),
    );
    assert!(!report.passed());
    assert!(report
        .results
        .iter()
        .any(|r| r.gate == Gate::BackwardCompatibility && !r.passed));
}

#[test]
fn rollback_must_cover_forward_tables() {
    let report = run_gates(
        &migration(
            "ALTER TABLE ledger ADD COLUMN note TEXT;",
            "DROP TABLE unrelated;",
        ),
        &ProductionSchema::new(),
    );
    assert!(report
        .results
        .iter()
        .any(|r| r.gate == Gate::Rollback && !r.passed));
}

#[test]
fn junit_report_marks_failures() {
    let report = run_gates(&migration("VACUUM FULL ledger;", ""), &prod());
    assert!(!report.passed());
    let xml = report.to_junit_xml();
    assert!(xml.contains("<testsuite"));
    assert!(xml.contains("<failure"));
    assert!(xml.contains("failures=\""));
}

#[test]
fn junit_report_passes_cleanly_for_safe_migration() {
    let report = run_gates(
        &migration(
            "CREATE INDEX CONCURRENTLY idx_ledger_seq ON ledger (seq);",
            "DROP INDEX idx_ledger_seq;",
        ),
        &prod(),
    );
    let xml = report.to_junit_xml();
    assert!(xml.contains("failures=\"0\""));
    assert!(!xml.contains("<failure"));
}

#[test]
fn gates_run_fast_enough_for_ci() {
    let start = std::time::Instant::now();
    for _ in 0..100 {
        let _ = run_gates(
            &migration(
                "CREATE INDEX CONCURRENTLY idx_ledger_seq ON ledger (seq);",
                "DROP INDEX idx_ledger_seq;",
            ),
            &prod(),
        );
    }
    assert!(start.elapsed() < std::time::Duration::from_secs(60));
}

#[test]
fn gate_names_render() {
    assert_eq!(Gate::LockRisk.name(), "lock-risk");
    assert_eq!(
        Gate::BackwardCompatibility.name(),
        "backward-compatibility"
    );
    assert_eq!(Gate::Rollback.name(), "rollback");
}

#[test]
fn statements_end_with_their_line() {
    assert_eq!(statements("-- note\nselect 1\n  from t;\n\nDROP TABLE a;"), vec!["SELECT 1 FROM T", "DROP TABLE A"]);
    assert!(statements("  ;  ").is_empty());
    assert_eq!(referenced_tables("ALTER TABLE LEDGER ADD COLUMN NOTE TEXT").len(), 1);
}

#[test]
fn statements_hold_no_comments() {
    assert_eq!(statements("CREATE INDEX i ON t (x); -- CONCURRENTLY later"), vec!["CREATE INDEX I ON T (X)"]);
    assert_eq!(statements("a/* b;\n c */d; e '--; x' f;"), vec!["A D", "E '--; X' F"]);
}

#[test]
fn unique_indexes_are_built_concurrently() {
    let report = run_gates(&migration("CREATE UNIQUE INDEX u ON ledger (seq);", "DROP INDEX u; -- ledger"), &prod());
    assert_eq!(report.results[0].gate, Gate::LockRisk);
    assert!(!report.results[0].passed);
    let report =
        run_gates(&migration("CREATE INDEX i ON ledger (seq); -- not CONCURRENTLY", "DROP INDEX i; -- ledger"), &prod());
    assert!(!report.results[0].passed);
}

#[test]
fn xml_is_escaped() {
    assert_eq!(xml_escape("a<b>&\"c\""), "a&lt;b&gt;&amp;&quot;c&quot;");
}

#[test]
fn blanks_between_words_hide_nothing() {
    assert_eq!(
        statements("CREATE /* soon */ INDEX i\n  ON\tledger (seq);"),
        vec!["CREATE   INDEX I ON\tLEDGER (SEQ)"],
    );
    let hidden = migration("CREATE  INDEX i ON ledger (seq);", "DROP INDEX i; SELECT 1 FROM ledger;");
    let report = run_gates(&hidden, &prod());
    assert!(!report.passed());
    assert_eq!(
        report.results[0].details,
        "blocking index build (missing CONCURRENTLY): CREATE  INDEX I ON LEDGER (SEQ)",
    );
    let commented = migration("CREATE /* soon */ INDEX i ON ledger (seq);", "DROP INDEX i; SELECT 1 FROM ledger;");
    assert!(!run_gates(&commented, &prod()).results[0].passed);
    let widened = migration(
        "ALTER TABLE ledger ADD  COLUMN note TEXT NOT\nNULL;",
        "ALTER TABLE ledger DROP COLUMN note;",
    );
    assert_eq!(
        run_gates(&widened, &prod()).results[1].details,
        "NOT NULL column without DEFAULT on existing table ledger: ALTER TABLE LEDGER ADD  COLUMN NOTE TEXT NOT NULL",
    );
}

#[test]
fn quotes_end_where_they_close() {
    let after = "\n-- CREATE INDEX i ON ledger (seq);\n";
    for quoted in [
        "SELECT $$it's$$;",
        "SELECT $body$it's $$ $body$;",
        "SELECT E'it\\'s';",
        "SELECT e'it''s \\' so';",
        "SELECT DATE'2024-01-01', '\\';",
        "SELECT a$b$c, 'x', $1;",
        "SELECT \"it's\";",
    ] {
        let up = format!("{quoted}{after}");
        assert_eq!(statements(&up).len(), 1, "{quoted}");
        assert!(run_gates(&migration(&up, "SELECT 1;"), &prod()).results[0].passed, "{quoted}");
    }
    assert_eq!(statements("SELECT $$it's$$;\n-- CREATE INDEX;\n"), vec!["SELECT $$IT'S$$"]);
    assert_eq!(statements("SELECT E'it\\'s -- so';"), vec!["SELECT E'IT\\'S -- SO'"]);
}

#[test]
fn text_in_dollar_quotes_is_a_script() {
    let body = "DO $$\nBEGIN\n  -- CREATE INDEX i ON ledger (seq);\n  PERFORM 'it';\nEND\n$$;";
    assert!(run_gates(&migration(body, "SELECT 1;"), &prod()).results[0].passed);
    let body = "DO $$\nBEGIN\n  CREATE INDEX i ON ledger (seq);\nEND\n$$;";
    assert!(!run_gates(&migration(body, "SELECT 1 FROM ledger;"), &prod()).results[0].passed);
}

#[test]
fn a_body_on_one_line_is_one_statement() {
    assert_eq!(
        statements("DO $$ BEGIN a; /* b; */ c; END $$; SELECT 1;"),
        vec!["DO $$ BEGIN A;   C; END $$", "SELECT 1"],
    );
    assert_eq!(statements("DO $f$ a; $$ b; $$ c; $f$;"), vec!["DO $F$ A; $$ B; $$ C; $F$"]);
}

#[test]
fn a_comment_does_not_undo_a_table() {
    let report = run_gates(
        &migration("ALTER TABLE ledger ADD COLUMN note TEXT;", "SELECT 1; -- undoes ledger"),
        &ProductionSchema::new(),
    );
    assert!(report.results.iter().any(|r| r.gate == Gate::Rollback && !r.passed));
}
