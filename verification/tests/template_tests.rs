use argoflows::errors::DefinitionError;
use argoflows::store::{TemplateStore};
use argoflows::template::{
    DagTask, DagTemplate, DataSpec, Inputs, Outputs, ScriptSpec, StepsTemplate, SuspendSpec,
    Template, TemplateKind, TemplateTypeFields, WorkflowStep,
};

fn empty_fields() -> TemplateTypeFields {
    TemplateTypeFields {
        container: None,
        container_set: None,
        script: None,
        resource: None,
        suspend: None,
        dag: None,
        steps: None,
        http: None,
        data: None,
    }
}

fn plain_template(name: &str, kind: TemplateKind) -> Template {
    Template {
        name: name.to_string(),
        inputs: Inputs { parameters: vec![] },
        outputs: Outputs { parameters: vec![] },
        kind,
        fail_fast: false,
        daemon: false,
        parallelism: None,
        retry_strategy: None,
        synchronization: None,
        cache_policy: None,
        archive_location: None,
    }
}

fn dag_template(name: &str, tasks: Vec<(&str, &str)>) -> Template {
    plain_template(
        name,
        TemplateKind::Dag(DagTemplate {
            tasks: tasks
                .into_iter()
                .map(|(n, t)| DagTask {
                    name: n.to_string(),
                    template: t.to_string(),
                    depends: vec![],
                    arguments: vec![],
                })
                .collect(),
        }),
    )
}

fn leaf(name: &str) -> Template {
    plain_template(
        name,
        TemplateKind::Script(ScriptSpec { image: b"img".to_vec(), source: b"pass".to_vec() }),
    )
}

#[test]
fn exactly_one_populated_type_field_is_accepted() {
    let mut f = empty_fields();
    f.suspend = Some(SuspendSpec { duration: Some(30) });
    assert_eq!(
        f.classify(),
        Ok(TemplateKind::Suspend(SuspendSpec { duration: Some(30) }))
    );
}

#[test]
fn zero_type_fields_is_a_definition_error() {
    assert_eq!(empty_fields().classify(), Err(DefinitionError::NoTemplateKind));
}

#[test]
fn two_type_fields_is_a_definition_error() {
    let mut f = empty_fields();
    f.suspend = Some(SuspendSpec { duration: None });
    f.data = Some(DataSpec { source: b"x".to_vec() });
    assert_eq!(f.classify(), Err(DefinitionError::MultipleTemplateKinds));
}

#[test]
fn resolve_finds_a_template_by_name() {
    let store = TemplateStore { templates: vec![leaf("a"), leaf("b")] };
    assert_eq!(store.resolve(&"b".to_string()).unwrap().name, "b");
}

#[test]
fn resolve_rejects_an_absent_name() {
    let store = TemplateStore { templates: vec![leaf("a")] };
    assert_eq!(
        store.resolve(&"zzz".to_string()),
        Err(DefinitionError::TemplateNotFound)
    );
}

#[test]
fn validate_refs_accepts_a_complete_graph() {
    let store = TemplateStore {
        templates: vec![dag_template("main", vec![("t1", "a"), ("t2", "b")]), leaf("a"), leaf("b")],
    };
    assert_eq!(store.validate_refs(), Ok(()));
}

#[test]
fn validate_refs_rejects_a_dangling_reference() {
    let store = TemplateStore {
        templates: vec![dag_template("main", vec![("t1", "ghost")]), leaf("a")],
    };
    assert_eq!(store.validate_refs(), Err(DefinitionError::TemplateNotFound));
}

#[test]
fn topo_order_witnesses_an_acyclic_graph() {
    let store = TemplateStore {
        templates: vec![
            dag_template("main", vec![("t1", "mid")]),
            dag_template("mid", vec![("s1", "leafy")]),
            leaf("leafy"),
        ],
    };
    let order = store.topo_order().unwrap();
    assert_eq!(order, vec![2, 1, 0]);
}

#[test]
fn a_recursive_template_graph_is_rejected() {
    // main invokes mid, mid invokes main: a cycle.
    let store = TemplateStore {
        templates: vec![
            dag_template("main", vec![("t1", "mid")]),
            dag_template("mid", vec![("t1", "main")]),
        ],
    };
    assert_eq!(
        store.topo_order(),
        Err(DefinitionError::RecursiveTemplateGraph)
    );
}

#[test]
fn a_self_referential_template_is_rejected() {
    let store = TemplateStore {
        templates: vec![plain_template(
            "loopy",
            TemplateKind::Steps(StepsTemplate {
                stages: vec![vec![WorkflowStep {
                    name: "again".to_string(),
                    template: "loopy".to_string(),
                    requires_success_of: vec![],
                    arguments: vec![],
                }]],
            }),
        )],
    };
    assert_eq!(
        store.topo_order(),
        Err(DefinitionError::RecursiveTemplateGraph)
    );
}
