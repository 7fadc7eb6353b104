//! End-to-end tests of the path dialect: parse, lower, navigate, render.
use rq::compiler::Wrap;
use rq::doc::JsonDoc;
use rq::doc::JsonNode;
use rq::driver::ScriptError;
use rq::driver::prepare;
use rq::driver::record_output;
use rq::driver::run_stream;

/// The document `{"a":[1,2,3],"b":{"c":"d"}}`, built bottom-up.
fn sample_doc() -> JsonDoc {
    JsonDoc {
        nodes: vec![
            JsonNode::Int(1),
            JsonNode::Int(2),
            JsonNode::Int(3),
            JsonNode::Array(vec![0, 1, 2]),
            JsonNode::Text("d".to_string()),
            JsonNode::Object(vec![("c".to_string(), 4)]),
            JsonNode::Object(vec![("a".to_string(), 3), ("b".to_string(), 5)]),
        ],
    }
}

/// The document `{"a":1}`.
fn flat_doc() -> JsonDoc {
    JsonDoc {
        nodes: vec![JsonNode::Int(1), JsonNode::Object(vec![("a".to_string(), 0)])],
    }
}

/// The document `{"a":"not-an-array"}`.
fn scalar_field_doc() -> JsonDoc {
    JsonDoc {
        nodes: vec![
            JsonNode::Text("not-an-array".to_string()),
            JsonNode::Object(vec![("a".to_string(), 0)]),
        ],
    }
}

#[test]
fn path_round_trip() {
    let prog = prepare(".a[1]").unwrap();
    let doc = sample_doc();
    let w = prog.call(&doc, Wrap { error: 0, json: 6 });
    assert_eq!(w.error, 0);
    assert_eq!(doc.render(w.json), "2");
    assert_eq!(record_output(&prog, &doc), "2");
}

#[test]
fn missing_key_is_error_one() {
    let prog = prepare(".z").unwrap();
    let doc = flat_doc();
    let w = prog.call(&doc, Wrap { error: 0, json: 1 });
    assert_eq!(w.error, 1);
    assert_eq!(record_output(&prog, &doc), "Error: 1");
}

#[test]
fn indexing_a_scalar_is_error_two() {
    let prog = prepare(".a[0]").unwrap();
    let doc = scalar_field_doc();
    let w = prog.call(&doc, Wrap { error: 0, json: 1 });
    assert_eq!(w.error, 2);
    assert_eq!(record_output(&prog, &doc), "Error: 2");
}

#[test]
fn index_out_of_range_is_error_one() {
    let prog = prepare(".a[9]").unwrap();
    let doc = sample_doc();
    assert_eq!(record_output(&prog, &doc), "Error: 1");
}

#[test]
fn failed_segment_short_circuits() {
    let prog = prepare(".z.a").unwrap();
    let doc = flat_doc();
    let w = prog.call(&doc, Wrap { error: 0, json: 1 });
    assert_eq!(w.error, 1);
    assert_eq!(w.json, 1);
}

#[test]
fn bare_root_renders_whole_document() {
    let prog = prepare(".").unwrap();
    let doc = sample_doc();
    assert_eq!(record_output(&prog, &doc), "{\"a\":[1,2,3],\"b\":{\"c\":\"d\"}}");
}

#[test]
fn nested_object_key() {
    let prog = prepare(".b.c").unwrap();
    let doc = sample_doc();
    assert_eq!(record_output(&prog, &doc), "\"d\"");
}

#[test]
fn compiling_twice_is_functionally_equal() {
    let p1 = prepare(".a[1]").unwrap();
    let p2 = prepare(".a[1]").unwrap();
    let doc = sample_doc();
    assert_eq!(record_output(&p1, &doc), record_output(&p2, &doc));
    let out1 = run_stream(&p1, &vec![sample_doc(), flat_doc()]);
    let out2 = run_stream(&p2, &vec![sample_doc(), flat_doc()]);
    assert_eq!(out1, out2);
}

#[test]
fn stream_emits_one_line_per_record_in_order() {
    let prog = prepare(".a").unwrap();
    let docs = vec![sample_doc(), flat_doc(), scalar_field_doc()];
    let out = run_stream(&prog, &docs);
    assert_eq!(out.len(), 3);
    assert_eq!(out[0], "[1,2,3]");
    assert_eq!(out[1], "1");
    assert_eq!(out[2], "\"not-an-array\"");
}

#[test]
fn text_without_leading_dot_fails_to_parse() {
    match prepare("a[1]") {
        Err(ScriptError::Parse(pe)) => assert_eq!(pe.at, 0),
        _ => panic!("expected a parse failure"),
    }
}

#[test]
fn renders_scalars_and_composites() {
    let doc = sample_doc();
    assert_eq!(doc.render(0), "1");
    assert_eq!(doc.render(3), "[1,2,3]");
    assert_eq!(doc.render(5), "{\"c\":\"d\"}");
    let more = JsonDoc {
        nodes: vec![
            JsonNode::Null,
            JsonNode::Bool(true),
            JsonNode::Bool(false),
            JsonNode::Int(-42),
            JsonNode::Array(vec![0, 1, 2, 3]),
        ],
    };
    assert_eq!(more.render(4), "[null,true,false,-42]");
}

#[test]
fn renders_empty_composites() {
    let doc = JsonDoc {
        nodes: vec![JsonNode::Array(vec![]), JsonNode::Object(vec![]), JsonNode::Array(vec![0, 1])],
    };
    assert_eq!(doc.render(2), "[[],{}]");
}

#[test]
fn well_formedness_is_decidable() {
    assert!(sample_doc().check_wf());
    let empty = JsonDoc { nodes: vec![] };
    assert!(!empty.check_wf());
    let forward = JsonDoc {
        nodes: vec![JsonNode::Array(vec![1]), JsonNode::Null],
    };
    assert!(!forward.check_wf());
    let dangling = JsonDoc { nodes: vec![JsonNode::Object(vec![("a".to_string(), 0)])] };
    assert!(!dangling.check_wf());
}
