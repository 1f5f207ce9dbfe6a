use tfplanshow::{
    render_text, should_fail, summarize, ActionKind, Change, JsonValue, PathSegment, Plan, PlanSummary,
    ResourceChange,
};

fn st(x: &str) -> JsonValue {
    JsonValue::Str(x.to_string())
}

fn obj(members: Vec<(&str, JsonValue)>) -> JsonValue {
    JsonValue::Object(members.into_iter().map(|(k, v)| (k.to_string(), v)).collect())
}

fn change(
    address: &str,
    mode: &str,
    resource_type: &str,
    name: &str,
    actions: &[&str],
    before: Option<JsonValue>,
    after: Option<JsonValue>,
    replace_paths: Option<Vec<Vec<PathSegment>>>,
) -> ResourceChange {
    ResourceChange {
        address: address.to_string(),
        mode: Some(mode.to_string()),
        resource_type: resource_type.to_string(),
        name: Some(name.to_string()),
        provider_name: None,
        change: Change {
            actions: actions.iter().map(|a| a.to_string()).collect(),
            before,
            after,
            replace_paths,
        },
    }
}

/// A realistic plan with one resource of each action shape.
fn sample_plan() -> Plan {
    let mut new_worker = change(
        "aws_instance.new_worker",
        "managed",
        "aws_instance",
        "new_worker",
        &["create"],
        None,
        Some(obj(vec![("ami", st("ami-2"))])),
        None,
    );
    new_worker.provider_name = Some("registry.terraform.io/hashicorp/aws".to_string());
    Plan {
        terraform_version: Some("1.7.0".to_string()),
        resource_changes: vec![
            new_worker,
            change(
                "aws_s3_bucket.old_logs",
                "managed",
                "aws_s3_bucket",
                "old_logs",
                &["delete"],
                Some(obj(vec![("bucket", st("old-logs"))])),
                None,
                None,
            ),
            change(
                "aws_instance.app",
                "managed",
                "aws_instance",
                "app",
                &["update"],
                Some(obj(vec![("ami", st("ami-1")), ("instance_type", st("t3.micro"))])),
                Some(obj(vec![("ami", st("ami-1")), ("instance_type", st("t3.large"))])),
                None,
            ),
            change(
                "aws_instance.web",
                "managed",
                "aws_instance",
                "web",
                &["delete", "create"],
                Some(obj(vec![("ami", st("ami-1"))])),
                Some(obj(vec![("ami", st("ami-2"))])),
                Some(vec![vec![PathSegment::Str("ami".to_string())]]),
            ),
            change(
                "aws_launch_template.lt",
                "managed",
                "aws_launch_template",
                "lt",
                &["create", "delete"],
                Some(obj(vec![("name", st("lt-v1"))])),
                Some(obj(vec![("name", st("lt-v2"))])),
                Some(vec![vec![PathSegment::Str("name".to_string())]]),
            ),
            change("data.aws_ami.ubuntu", "data", "aws_ami", "ubuntu", &["read"], None, None, None),
            change(
                "aws_iam_role.unchanged",
                "managed",
                "aws_iam_role",
                "unchanged",
                &["no-op"],
                Some(obj(vec![("name", st("unchanged"))])),
                Some(obj(vec![("name", st("unchanged"))])),
                None,
            ),
        ],
    }
}

#[test]
fn parses_a_realistic_plan_and_buckets_every_resource_correctly() {
    let plan = sample_plan();
    assert_eq!(plan.resource_changes.len(), 7);
    let summary = summarize(&plan);

    assert_eq!(summary.creates.len(), 1);
    assert_eq!(summary.creates[0].address, "aws_instance.new_worker");

    assert_eq!(summary.deletes.len(), 1);
    assert_eq!(summary.deletes[0].address, "aws_s3_bucket.old_logs");

    assert_eq!(summary.updates.len(), 1);
    assert_eq!(summary.updates[0].address, "aws_instance.app");

    assert_eq!(summary.replaces.len(), 2);
    assert_eq!(summary.reads.len(), 1);
    assert_eq!(summary.no_ops.len(), 1);
    assert!(summary.unknown.is_empty());
}

#[test]
fn distinguishes_destroy_then_create_from_create_then_destroy_in_the_same_plan() {
    let plan = sample_plan();
    let summary = summarize(&plan);
    let web = summary
        .replaces
        .iter()
        .find(|(rc, _)| rc.address == "aws_instance.web")
        .unwrap();
    assert!(!web.1, "aws_instance.web should be destroy-then-create");
    let lt = summary
        .replaces
        .iter()
        .find(|(rc, _)| rc.address == "aws_launch_template.lt")
        .unwrap();
    assert!(lt.1, "aws_launch_template.lt should be create-then-destroy");
}

#[test]
fn render_text_calls_out_replacements_prominently_and_before_other_sections() {
    let plan = sample_plan();
    let summary = summarize(&plan);
    let text = render_text(&summary, false);

    let replace_pos = text.find("REPLACEMENTS").unwrap();
    let delete_pos = text.find("DELETE").unwrap();
    let create_pos = text.find("CREATE").unwrap();
    assert!(
        replace_pos < delete_pos,
        "replacements must be shown before deletes"
    );
    assert!(
        delete_pos < create_pos,
        "deletes must be shown before creates"
    );

    assert!(text.contains("aws_instance.web"));
    assert!(text.contains("forced by: ami"));
    assert!(text.contains("create then destroy"));
    assert!(text.contains("destroy then create"));
}

#[test]
fn render_text_shows_changed_attribute_names_for_updates() {
    let plan = sample_plan();
    let summary = summarize(&plan);
    let text = render_text(&summary, false);
    assert!(text.contains("aws_instance.app  (changed: instance_type)"));
}

#[test]
fn render_text_hides_noop_and_reads_by_default_but_shows_them_when_asked() {
    let plan = sample_plan();
    let summary = summarize(&plan);
    let hidden = render_text(&summary, false);
    assert!(!hidden.contains("data.aws_ami.ubuntu"));
    assert!(!hidden.contains("aws_iam_role.unchanged"));

    let shown = render_text(&summary, true);
    assert!(shown.contains("data.aws_ami.ubuntu"));
    assert!(shown.contains("aws_iam_role.unchanged"));
}

#[test]
fn render_text_summary_line_has_correct_counts() {
    let plan = sample_plan();
    let summary = summarize(&plan);
    let text = render_text(&summary, false);
    assert!(text.contains("Summary: 1 to add, 1 to change, 1 to destroy, 2 to replace"));
}

#[test]
fn has_replacements_and_has_deletes_reflect_the_plan() {
    let plan = sample_plan();
    let summary = summarize(&plan);
    assert!(summary.has_replacements());
    assert!(summary.has_deletes());
    assert_eq!(summary.total_actionable(), 1 + 1 + 1 + 2);
}

#[test]
fn plan_with_no_replacements_or_deletes_reports_that_correctly() {
    let plan = Plan {
        terraform_version: None,
        resource_changes: vec![ResourceChange {
            address: "aws_instance.a".to_string(),
            mode: None,
            resource_type: "aws_instance".to_string(),
            name: Some("a".to_string()),
            provider_name: None,
            change: Change {
                actions: vec!["create".to_string()],
                before: None,
                after: Some(obj(vec![])),
                replace_paths: None,
            },
        }],
    };
    let summary = summarize(&plan);
    assert!(!summary.has_replacements());
    assert!(!summary.has_deletes());
}

#[test]
fn full_report_of_the_sample_plan() {
    let plan = sample_plan();
    let summary = summarize(&plan);
    let expected = "REPLACEMENTS (destroy and recreate) — 2\n\
                    \x20 ~ aws_instance.web  (destroy then create)\n\
                    \x20     forced by: ami\n\
                    \x20 ~ aws_launch_template.lt  (create then destroy)\n\
                    \x20     forced by: name\n\
                    \n\
                    DELETE — 1\n\
                    \x20 - aws_s3_bucket.old_logs\n\
                    \n\
                    CREATE — 1\n\
                    \x20 + aws_instance.new_worker\n\
                    \n\
                    UPDATE — 1\n\
                    \x20 ~ aws_instance.app  (changed: instance_type)\n\
                    \n\
                    Summary: 1 to add, 1 to change, 1 to destroy, 2 to replace\n";
    assert_eq!(render_text(&summary, false), expected);
    let with_noop = render_text(&summary, true);
    let noop = "READ (data sources) — 1\n\
                \x20 = data.aws_ami.ubuntu\n\
                \n\
                NO-OP — 1\n\
                \x20 = aws_iam_role.unchanged\n\
                \n";
    let split = expected.find("Summary:").unwrap();
    assert_eq!(with_noop, format!("{}{}{}", &expected[..split], noop, &expected[split..]));
}

#[test]
fn sections_are_sorted_by_address_and_stable_for_equal_addresses() {
    let mut plan = sample_plan();
    let mk = |addr: &str, name: &str, actions: &[&str]| {
        change(addr, "managed", "t", name, actions, None, None, None)
    };
    plan.resource_changes = vec![
        mk("b.x", "first", &["create"]),
        mk("a.x", "a", &["create"]),
        mk("b.x", "second", &["create"]),
        mk("c.x", "c", &["delete"]),
        mk("A.x", "upper", &["create"]),
    ];
    let summary = summarize(&plan);
    let names: Vec<&str> = summary
        .creates
        .iter()
        .map(|rc| rc.name.as_deref().unwrap())
        .collect();
    assert_eq!(names, vec!["upper", "a", "first", "second"]);
    assert_eq!(summary.deletes.len(), 1);
    assert_eq!(summary.total_actionable(), 5);
}

#[test]
fn every_change_lands_in_exactly_one_group() {
    let plan = sample_plan();
    let summary = summarize(&plan);
    let total = summary.creates.len()
        + summary.updates.len()
        + summary.deletes.len()
        + summary.replaces.len()
        + summary.reads.len()
        + summary.no_ops.len()
        + summary.unknown.len();
    assert_eq!(total, plan.resource_changes.len());
}

#[test]
fn unrecognized_actions_are_listed_with_their_debug_form() {
    let plan = Plan {
        terraform_version: None,
        resource_changes: vec![
            change("x.b", "managed", "x", "b", &["create", "read"], None, None, None),
            change("x.a", "managed", "x", "a", &[], None, None, None),
        ],
    };
    let summary = summarize(&plan);
    assert_eq!(summary.unknown.len(), 2);
    assert_eq!(summary.unknown[0].0.address, "x.a");
    assert_eq!(summary.unknown[1].1, vec!["create".to_string(), "read".to_string()]);
    let text = render_text(&summary, false);
    assert_eq!(
        text,
        "UNRECOGNIZED ACTIONS — 2\n  ? x.a  (actions: [])\n  ? x.b  (actions: [\"create\", \"read\"])\n\nSummary: 0 to add, 0 to change, 0 to destroy, 0 to replace\n"
    );
}

#[test]
fn empty_plan_renders_only_the_summary_line() {
    let plan = Plan { terraform_version: None, resource_changes: vec![] };
    let summary = summarize(&plan);
    assert_eq!(render_text(&summary, true), "Summary: 0 to add, 0 to change, 0 to destroy, 0 to replace\n");
    assert_eq!(summary.total_actionable(), 0);
    let default_summary = PlanSummary::default();
    assert_eq!(render_text(&default_summary, false), render_text(&summary, false));
}

#[test]
fn replacement_reasons_join_several_paths_and_skip_an_empty_list() {
    let plan = Plan {
        terraform_version: None,
        resource_changes: vec![
            change(
                "aws_security_group.sg",
                "managed",
                "aws_security_group",
                "sg",
                &["delete", "create"],
                None,
                None,
                Some(vec![
                    vec![
                        PathSegment::Str("ingress".to_string()),
                        PathSegment::Number("0".to_string()),
                        PathSegment::Str("from_port".to_string()),
                    ],
                    vec![PathSegment::Str("tags".to_string()), PathSegment::Str("Name".to_string())],
                ]),
            ),
            change("aws_instance.z", "managed", "aws_instance", "z", &["create", "delete"], None, None, Some(vec![])),
        ],
    };
    let summary = summarize(&plan);
    let text = render_text(&summary, false);
    assert_eq!(
        text,
        "REPLACEMENTS (destroy and recreate) — 2\n  ~ aws_instance.z  (create then destroy)\n  ~ aws_security_group.sg  (destroy then create)\n      forced by: ingress[0].from_port, tags.Name\n\nSummary: 0 to add, 0 to change, 0 to destroy, 2 to replace\n"
    );
}

#[test]
fn update_without_differences_and_large_counts() {
    let mut changes = Vec::new();
    for i in 0..12 {
        changes.push(change(
            &format!("r.u{:02}", i),
            "managed",
            "r",
            "u",
            &["update"],
            Some(obj(vec![("a", st("1"))])),
            Some(obj(vec![("a", st("1"))])),
            None,
        ));
    }
    let plan = Plan { terraform_version: None, resource_changes: changes };
    let summary = summarize(&plan);
    let text = render_text(&summary, false);
    assert!(text.starts_with("UPDATE — 12\n  ~ r.u00\n  ~ r.u01\n"));
    assert!(text.ends_with("\n\nSummary: 0 to add, 12 to change, 0 to destroy, 0 to replace\n"));
    assert_eq!(summary.updates.len(), 12);
    assert!(matches!(
        tfplanshow::categorize(&summary.updates[0].change.actions),
        ActionKind::Update
    ));
}

#[test]
fn ci_gates_follow_the_plan_content() {
    let plan = sample_plan();
    let summary = summarize(&plan);
    assert!(should_fail(&summary, true, false));
    assert!(should_fail(&summary, false, true));
    assert!(!should_fail(&summary, false, false));

    let clean = Plan {
        terraform_version: None,
        resource_changes: vec![change("aws_instance.a", "managed", "aws_instance", "a", &["create"], None, None, None)],
    };
    let clean_summary = summarize(&clean);
    assert!(!should_fail(&clean_summary, true, false));
    assert!(!should_fail(&clean_summary, false, true));
    assert!(!should_fail(&clean_summary, true, true));

    let only_replace = Plan {
        terraform_version: None,
        resource_changes: vec![change("a.r", "managed", "a", "r", &["create", "delete"], None, None, None)],
    };
    let replace_summary = summarize(&only_replace);
    assert!(!replace_summary.has_deletes());
    assert!(should_fail(&replace_summary, false, true));
    assert!(should_fail(&replace_summary, true, false));

    let only_delete = Plan {
        terraform_version: None,
        resource_changes: vec![change("a.d", "managed", "a", "d", &["delete"], None, None, None)],
    };
    let delete_summary = summarize(&only_delete);
    assert!(!should_fail(&delete_summary, true, false));
    assert!(should_fail(&delete_summary, false, true));
}
