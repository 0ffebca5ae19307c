use anything_engine::planner::{create_execution_plan, PlanError};
use anything_engine::types::{
    ActionNode, Edge, FlowVersion, NodeKind, Stage, Task, TaskConfig, TaskStatus, Workflow,
};

fn node(id: &str, kind: NodeKind, plugin: Option<&str>) -> ActionNode {
    ActionNode {
        node_id: id.to_string(),
        kind,
        plugin_id: plugin.map(|p| p.to_string()),
        variables: Some(format!("vars-of-{}", id)),
        input: Some(format!("input-of-{}", id)),
    }
}

fn edge(source: &str, target: &str) -> Edge {
    Edge { source: source.to_string(), target: target.to_string() }
}

fn trigger_task() -> Task {
    Task {
        task_id: "task-1".to_string(),
        account_id: "acct-1".to_string(),
        flow_id: "flow-1".to_string(),
        flow_version_id: "fv-1".to_string(),
        flow_version_name: Some("v1".to_string()),
        trigger_id: "trig-1".to_string(),
        trigger_session_id: "ts-1".to_string(),
        flow_session_id: "fs-1".to_string(),
        node_id: "trigger".to_string(),
        plugin_id: None,
        stage: Stage::Production,
        task_status: TaskStatus::Pending,
        is_trigger: true,
        processing_order: 0,
        config: TaskConfig { variables: None, inputs: None },
        result: None,
    }
}

fn flow_version(actions: Vec<ActionNode>, edges: Vec<Edge>) -> FlowVersion {
    FlowVersion {
        flow_version_id: "fv-1".to_string(),
        flow_version_name: Some("v1".to_string()),
        workflow: Workflow { actions, edges },
    }
}

#[test]
fn linear_plan_orders_chain() {
    let fv = flow_version(
        vec![
            node("trigger", NodeKind::Trigger, None),
            node("b", NodeKind::Standard, Some("http")),
            node("c", NodeKind::Standard, Some("http")),
        ],
        vec![edge("trigger", "b"), edge("b", "c")],
    );
    let plan = create_execution_plan(&trigger_task(), &fv).unwrap();
    assert_eq!(plan.len(), 2);
    assert_eq!(plan[0].node_id, "b");
    assert_eq!(plan[0].processing_order, 1);
    assert_eq!(plan[1].node_id, "c");
    assert_eq!(plan[1].processing_order, 2);
    assert!(!plan[0].is_trigger);
    assert!(!plan[1].is_trigger);
    assert_eq!(plan[0].task_status, TaskStatus::Pending);
}

#[test]
fn fan_in_emits_merge_node_once() {
    let fv = flow_version(
        vec![
            node("trigger", NodeKind::Trigger, None),
            node("b", NodeKind::Standard, None),
            node("c", NodeKind::Standard, None),
            node("d", NodeKind::Standard, None),
        ],
        vec![edge("trigger", "b"), edge("trigger", "c"), edge("b", "d"), edge("c", "d")],
    );
    let plan = create_execution_plan(&trigger_task(), &fv).unwrap();
    let d_count = plan.iter().filter(|r| r.node_id == "d").count();
    assert_eq!(d_count, 1);
    let order_of = |id: &str| plan.iter().find(|r| r.node_id == id).unwrap().processing_order;
    assert!(order_of("d") > order_of("b"));
    assert!(order_of("d") > order_of("c"));
}

#[test]
fn missing_trigger_fails_without_tasks() {
    let fv = flow_version(
        vec![node("b", NodeKind::Standard, None), node("c", NodeKind::Standard, None)],
        vec![edge("b", "c")],
    );
    let r = create_execution_plan(&trigger_task(), &fv);
    assert_eq!(r.unwrap_err(), PlanError::TriggerNotFound);
}

#[test]
fn cycle_terminates_and_emits_each_node_once() {
    let fv = flow_version(
        vec![
            node("trigger", NodeKind::Trigger, None),
            node("b", NodeKind::Standard, None),
            node("c", NodeKind::Standard, None),
        ],
        vec![edge("trigger", "b"), edge("b", "c"), edge("c", "b")],
    );
    let plan = create_execution_plan(&trigger_task(), &fv).unwrap();
    assert_eq!(plan.len(), 2);
    assert_eq!(plan[0].node_id, "b");
    assert_eq!(plan[1].node_id, "c");
}

#[test]
fn dangling_edge_is_skipped() {
    let fv = flow_version(
        vec![node("trigger", NodeKind::Trigger, None), node("b", NodeKind::Standard, None)],
        vec![edge("trigger", "b"), edge("b", "ghost")],
    );
    let plan = create_execution_plan(&trigger_task(), &fv).unwrap();
    assert_eq!(plan.len(), 1);
    assert_eq!(plan[0].node_id, "b");
}

#[test]
fn unreachable_node_is_not_planned() {
    let fv = flow_version(
        vec![
            node("trigger", NodeKind::Trigger, None),
            node("b", NodeKind::Standard, None),
            node("island", NodeKind::Standard, None),
        ],
        vec![edge("trigger", "b")],
    );
    let plan = create_execution_plan(&trigger_task(), &fv).unwrap();
    assert_eq!(plan.len(), 1);
    assert_eq!(plan[0].node_id, "b");
}

#[test]
fn trigger_alone_plans_nothing() {
    let fv = flow_version(vec![node("trigger", NodeKind::Trigger, None)], vec![]);
    let plan = create_execution_plan(&trigger_task(), &fv).unwrap();
    assert!(plan.is_empty());
}

#[test]
fn plan_copies_identifiers_and_templates() {
    let fv = flow_version(
        vec![node("trigger", NodeKind::Trigger, None), node("b", NodeKind::Standard, Some("http"))],
        vec![edge("trigger", "b")],
    );
    let task = trigger_task();
    let plan = create_execution_plan(&task, &fv).unwrap();
    let rec = &plan[0];
    assert_eq!(rec.account_id, "acct-1");
    assert_eq!(rec.flow_id, "flow-1");
    assert_eq!(rec.flow_version_id, "fv-1");
    assert_eq!(rec.flow_version_name, "v1");
    assert_eq!(rec.trigger_id, "trig-1");
    assert_eq!(rec.trigger_session_id, "ts-1");
    assert_eq!(rec.flow_session_id, "fs-1");
    assert_eq!(rec.plugin_id.as_deref(), Some("http"));
    assert_eq!(rec.stage, Stage::Production);
    assert_eq!(rec.config.variables.as_deref(), Some("vars-of-b"));
    assert_eq!(rec.config.inputs.as_deref(), Some("input-of-b"));
    assert!(rec.test_config.is_none());
}

#[test]
fn plan_defaults_missing_version_name() {
    let fv = flow_version(
        vec![node("trigger", NodeKind::Trigger, None), node("b", NodeKind::Standard, None)],
        vec![edge("trigger", "b")],
    );
    let mut task = trigger_task();
    task.flow_version_name = None;
    let plan = create_execution_plan(&task, &fv).unwrap();
    assert_eq!(plan[0].flow_version_name, "unknown");
}
