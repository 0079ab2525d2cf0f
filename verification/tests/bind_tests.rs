use argoflows::bind::{bind_template, resolve_parameters, substitute, Argument};
use argoflows::errors::DefinitionError;
use argoflows::template::{
    DataSpec, Inputs, Outputs, Parameter, ScriptSpec, Template, TemplateKind,
};

fn data_kind(source: &str) -> TemplateKind {
    TemplateKind::Data(DataSpec { source: source.as_bytes().to_vec() })
}

fn arg(name: &str, value: &str) -> Argument {
    Argument { name: name.as_bytes().to_vec(), value: value.as_bytes().to_vec() }
}

fn param(name: &str, value: Option<&str>, default: Option<&str>) -> Parameter {
    Parameter {
        name: name.as_bytes().to_vec(),
        value: value.map(|v| v.as_bytes().to_vec()),
        default: default.map(|v| v.as_bytes().to_vec()),
    }
}

fn script_template(name: &str, source: &str, params: Vec<Parameter>) -> Template {
    Template {
        name: name.to_string(),
        inputs: Inputs { parameters: params },
        outputs: Outputs { parameters: vec![] },
        kind: TemplateKind::Script(ScriptSpec {
            image: b"python:3".to_vec(),
            source: source.as_bytes().to_vec(),
        }),
        fail_fast: false,
        daemon: false,
        parallelism: None,
        retry_strategy: None,
        synchronization: None,
        cache_policy: None,
        archive_location: None,
    }
}

#[test]
fn substitution_replaces_each_placeholder_with_its_value() {
    let binds = vec![arg("msg", "hello"), arg("who", "world")];
    let out = substitute(
        &b"say {{inputs.parameters.msg}} to {{inputs.parameters.who}}!".to_vec(),
        &binds,
    );
    assert_eq!(out, b"say hello to world!".to_vec());
}

#[test]
fn substitution_is_one_level_deep() {
    // The inserted value itself looks like a placeholder and is not
    // re-expanded.
    let binds = vec![arg("a", "{{inputs.parameters.b}}"), arg("b", "deep")];
    let out = substitute(&b"x {{inputs.parameters.a}} y".to_vec(), &binds);
    assert_eq!(out, b"x {{inputs.parameters.b}} y".to_vec());
}

#[test]
fn unknown_placeholders_stay_as_written() {
    let binds = vec![arg("a", "1")];
    let out = substitute(&b"{{inputs.parameters.zzz}}-{{inputs.parameters.a}}".to_vec(), &binds);
    assert_eq!(out, b"{{inputs.parameters.zzz}}-1".to_vec());
}

#[test]
fn resolution_prefers_supplied_over_declared_over_default() {
    let params = vec![
        param("a", Some("declared"), Some("default")),
        param("b", None, Some("default")),
    ];
    let args = vec![arg("a", "supplied")];
    let kind = data_kind("{{inputs.parameters.a}}-{{inputs.parameters.b}}");
    let bound = resolve_parameters(&params, &args, &kind).unwrap();
    assert_eq!(bound[0].value, b"supplied".to_vec());
    assert_eq!(bound[1].value, b"default".to_vec());
}

#[test]
fn unresolved_reference_is_rejected() {
    let params = vec![param("needed", None, None)];
    let kind = data_kind("uses {{inputs.parameters.needed}}");
    let r = resolve_parameters(&params, &vec![], &kind);
    assert_eq!(r, Err(DefinitionError::UnresolvedReference));
}

#[test]
fn unreferenced_inputs_never_abort_the_bind() {
    // Only referenced inputs must resolve: "a" is referenced and has a
    // default, while "b" is declared, unresolvable — and unreferenced.
    let t = script_template(
        "greet",
        "print('{{inputs.parameters.a}}')",
        vec![param("a", None, Some("hi")), param("b", None, None)],
    );
    let b = bind_template(t, &vec![]).unwrap();
    match &b.kind {
        TemplateKind::Script(s) => assert_eq!(s.source, b"print('hi')".to_vec()),
        _ => panic!("bound template changed kind"),
    }
}

#[test]
fn bind_is_deterministic_byte_for_byte() {
    // Same template + same arguments: byte-identical bound templates,
    // always — the precondition for memoization.
    let t = script_template(
        "greet",
        "print('{{inputs.parameters.msg}}')",
        vec![param("msg", None, Some("hi"))],
    );
    let args = vec![arg("msg", "good day")];
    let b1 = bind_template(t.clone(), &args).unwrap();
    let b2 = bind_template(t.clone(), &args).unwrap();
    assert_eq!(b1, b2);
    match &b1.kind {
        TemplateKind::Script(s) => {
            assert_eq!(s.source, b"print('good day')".to_vec());
            assert_eq!(s.image, b"python:3".to_vec());
        },
        _ => panic!("bound template changed kind"),
    }
}

#[test]
fn bind_falls_back_to_the_default() {
    let t = script_template(
        "greet",
        "print('{{inputs.parameters.msg}}')",
        vec![param("msg", None, Some("hi"))],
    );
    let b = bind_template(t, &vec![]).unwrap();
    match &b.kind {
        TemplateKind::Script(s) => assert_eq!(s.source, b"print('hi')".to_vec()),
        _ => panic!("bound template changed kind"),
    }
}

#[test]
fn bind_rejects_a_missing_input() {
    let t = script_template(
        "greet",
        "print('{{inputs.parameters.msg}}')",
        vec![param("msg", None, None)],
    );
    let r = bind_template(t, &vec![]);
    assert_eq!(r, Err(DefinitionError::UnresolvedReference));
}

#[test]
fn bind_leaves_policies_and_name_untouched() {
    let mut t = script_template("greet", "pass", vec![]);
    t.fail_fast = true;
    t.daemon = true;
    t.parallelism = Some(4);
    let b = bind_template(t.clone(), &vec![]).unwrap();
    assert_eq!(b.name, "greet");
    assert!(b.fail_fast);
    assert!(b.daemon);
    assert_eq!(b.parallelism, Some(4));
}
