use csml_interpreter::error::ErrorKind;
use csml_interpreter::interpreter::{AstInterpreter, Event, Expr, Infix, LiteralResolver, RootInterface};
use csml_interpreter::json::{Interval, JsonValue};
use csml_interpreter::memory::Memory;
use csml_interpreter::value::{Literal, Message, PrimitiveInt};

fn pos() -> Interval {
    Interval { line: 0, column: 0 }
}

fn text(s: &str) -> Literal {
    Literal { content_type: "string".to_string(), primitive: JsonValue::String(s.to_string()), interval: pos() }
}

fn integer(n: i64) -> Literal {
    PrimitiveInt::get_literal("int", n, pos())
}

fn lit(s: &str) -> Expr {
    Expr::LitExpr(text(s))
}

fn ident(s: &str) -> Expr {
    Expr::IdentExpr(s.to_string())
}

fn say(e: Expr) -> Expr {
    Expr::Reserved { fun: "say".to_string(), arg: Box::new(e) }
}

fn reserved(fun: &str, block: Vec<Expr>) -> Expr {
    Expr::Reserved { fun: fun.to_string(), arg: Box::new(Expr::VecExpr(block)) }
}

fn goto(step: &str) -> Expr {
    Expr::Goto(step.to_string())
}

fn remember(name: &str, e: Expr) -> Expr {
    Expr::Remember(name.to_string(), Box::new(e))
}

fn infix(op: Infix, a: Expr, b: Expr) -> Expr {
    Expr::InfixExpr(op, Box::new(a), Box::new(b))
}

fn when(cond: Expr, consequence: Vec<Expr>) -> Expr {
    Expr::IfExpr { cond: Box::new(cond), consequence }
}

fn builder(scope: &str, fun: &str, key: &str) -> Expr {
    Expr::BuilderExpr(Box::new(ident(scope)), Box::new(Expr::FunctionExpr(fun.to_string(), Box::new(lit(key)))))
}

fn text_message(v: JsonValue) -> Message {
    Message { content_type: "text".to_string(), content: JsonValue::Object(vec![("text".to_string(), v)]) }
}

fn said(s: &str) -> Message {
    text_message(JsonValue::String(s.to_string()))
}

fn text_event(s: &str) -> Event {
    Event {
        content_type: "text".to_string(),
        content: JsonValue::Object(vec![("text".to_string(), JsonValue::String(s.to_string()))]),
    }
}

fn run(memory: &Memory, event: &Option<Event>, block: Vec<Expr>) -> Result<RootInterface, ErrorKind> {
    let interpreter = AstInterpreter::new(memory, event, &LiteralResolver);
    interpreter.match_block(&block).map_err(|e| e.kind)
}

#[test]
fn goto_stops_the_block() {
    let memory = Memory::new();
    let root = run(&memory, &None, vec![say(lit("hi")), goto("next"), say(lit("never"))]).unwrap();
    assert_eq!(root.messages, vec![said("hi")]);
    assert_eq!(root.next_step, Some("next".to_string()));
    assert_eq!(root.next_flow, None);
}

#[test]
fn ask_without_event_halts_after_its_block() {
    let memory = Memory::new();
    let block = vec![reserved("ask", vec![say(lit("q1"))]), say(lit("after"))];
    let root = run(&memory, &None, block).unwrap();
    assert_eq!(root.messages, vec![said("q1")]);
}

#[test]
fn ask_with_event_is_skipped() {
    let memory = Memory::new();
    let block = vec![reserved("ask", vec![say(lit("q1"))]), say(lit("after"))];
    let root = run(&memory, &Some(text_event("hello")), block).unwrap();
    assert_eq!(root.messages, vec![said("after")]);
}

#[test]
fn respond_with_event_halts_after_its_block() {
    let memory = Memory::new();
    let block = vec![reserved("respond", vec![say(lit("r1"))]), say(lit("after"))];
    let root = run(&memory, &Some(text_event("hello")), block).unwrap();
    assert_eq!(root.messages, vec![said("r1")]);
    let memory = Memory::new();
    let block = vec![reserved("respond", vec![say(lit("r1"))]), say(lit("after"))];
    let root = run(&memory, &None, block).unwrap();
    assert_eq!(root.messages, vec![said("after")]);
}

#[test]
fn bare_identifier_prefers_metadata() {
    let mut memory = Memory::new();
    memory.metadata.push("x".to_string(), text("A"));
    memory.current.push("x".to_string(), text("B"));
    memory.past.push("x".to_string(), text("C"));
    let found = memory.search_var("x").unwrap();
    assert_eq!(found.primitive, JsonValue::String("A".to_string()));
    let root = run(&memory, &None, vec![remember("y", ident("x"))]).unwrap();
    assert_eq!(root.memories.len(), 1);
    assert_eq!(root.memories[0].0, "y");
    assert_eq!(root.memories[0].1.primitive, JsonValue::String("A".to_string()));
}

#[test]
fn bare_identifier_falls_back_to_current_then_past() {
    let mut memory = Memory::new();
    memory.past.push("x".to_string(), text("C"));
    assert_eq!(memory.search_var("x").unwrap().primitive, JsonValue::String("C".to_string()));
    memory.current.push("x".to_string(), text("B"));
    assert_eq!(memory.search_var("x").unwrap().primitive, JsonValue::String("B".to_string()));
    assert!(memory.search_var("missing").is_none());
}

#[test]
fn remember_keeps_first_and_last() {
    let mut memory = Memory::new();
    memory.remember("n".to_string(), integer(1));
    memory.remember("n".to_string(), integer(2));
    assert_eq!(memory.current.first("n").unwrap().primitive, JsonValue::Number(1));
    assert_eq!(memory.current.get("n").unwrap().primitive, JsonValue::Number(2));
    assert_eq!(memory.current.entries.len(), 2);
}

#[test]
fn memory_paths_pick_scope_and_end() {
    let mut memory = Memory::new();
    memory.current.push("n".to_string(), text("first"));
    memory.current.push("n".to_string(), text("last"));
    memory.past.push("n".to_string(), text("old"));
    let block = vec![
        say(builder("memory", "first", "n")),
        say(builder("memory", "get", "n")),
        say(builder("past", "get", "n")),
    ];
    let root = run(&memory, &None, block).unwrap();
    assert_eq!(root.messages, vec![said("first"), said("last"), said("old")]);
}

#[test]
fn unknown_memory_function_fails() {
    let memory = Memory::new();
    let err = run(&memory, &None, vec![say(builder("memory", "all", "n"))]).unwrap_err();
    assert_eq!(err, ErrorKind::UnresolvedVariable);
}

#[test]
fn interpolation_writes_parts_as_text() {
    let mut memory = Memory::new();
    memory.metadata.push("name".to_string(), text("Toto"));
    let parts = Expr::ComplexLiteral(vec![lit("hi "), ident("name"), lit(" #"), Expr::LitExpr(integer(-42))]);
    let root = run(&memory, &None, vec![say(parts)]).unwrap();
    assert_eq!(root.messages, vec![said("hi Toto #-42")]);
}

#[test]
fn event_text_resolves() {
    let memory = Memory::new();
    let parts = Expr::ComplexLiteral(vec![ident("event")]);
    let root = run(&memory, &Some(text_event("hello")), vec![say(parts)]).unwrap();
    assert_eq!(root.messages, vec![said("hello")]);
    let other = Event { content_type: "image".to_string(), content: JsonValue::Null };
    let err = run(&memory, &Some(other), vec![say(Expr::ComplexLiteral(vec![ident("event")]))]).unwrap_err();
    assert_eq!(err, ErrorKind::UnresolvedVariable);
}

#[test]
fn if_merges_and_continues() {
    let mut memory = Memory::new();
    memory.metadata.push("age".to_string(), integer(20));
    let block = vec![
        when(infix(Infix::GreaterThan, ident("age"), Expr::LitExpr(integer(18))), vec![say(lit("adult"))]),
        when(infix(Infix::LessThan, ident("age"), Expr::LitExpr(integer(18))), vec![say(lit("minor"))]),
        say(lit("end")),
    ];
    let root = run(&memory, &None, block).unwrap();
    assert_eq!(root.messages, vec![said("adult"), said("end")]);
}

#[test]
fn goto_inside_if_stops_the_enclosing_block() {
    let memory = Memory::new();
    let block = vec![when(Expr::LitExpr(text("yes")), vec![goto("inner")]), say(lit("never"))];
    let root = run(&memory, &None, block).unwrap();
    assert!(root.messages.is_empty());
    assert_eq!(root.next_step, Some("inner".to_string()));
}

#[test]
fn unresolved_condition_is_false() {
    let memory = Memory::new();
    let block = vec![
        when(infix(Infix::Equal, ident("missing"), lit("x")), vec![say(lit("no"))]),
        when(ident("missing"), vec![say(lit("no"))]),
        say(lit("yes")),
    ];
    let root = run(&memory, &None, block).unwrap();
    assert_eq!(root.messages, vec![said("yes")]);
}

#[test]
fn logical_nodes_combine_conditions() {
    let memory = Memory::new();
    let t = infix(Infix::Equal, Expr::LitExpr(integer(1)), Expr::LitExpr(integer(1)));
    let f = infix(Infix::Equal, Expr::LitExpr(integer(1)), Expr::LitExpr(integer(2)));
    let block = vec![
        when(infix(Infix::And, t, f), vec![say(lit("and"))]),
        when(
            infix(
                Infix::Or,
                infix(Infix::Equal, Expr::LitExpr(integer(1)), Expr::LitExpr(integer(1))),
                infix(Infix::Equal, Expr::LitExpr(integer(1)), Expr::LitExpr(integer(2))),
            ),
            vec![say(lit("or"))],
        ),
    ];
    let root = run(&memory, &None, block).unwrap();
    assert_eq!(root.messages, vec![said("or")]);
}

#[test]
fn mixed_or_node_is_true_without_its_sub_condition() {
    let memory = Memory::new();
    let broken = infix(Infix::Equal, ident("missing"), lit("x"));
    let block = vec![
        when(infix(Infix::Or, broken, lit("plain")), vec![say(lit("or"))]),
        when(infix(Infix::And, infix(Infix::Equal, ident("missing"), lit("x")), lit("plain")), vec![say(lit("and"))]),
    ];
    let root = run(&memory, &None, block).unwrap();
    assert_eq!(root.messages, vec![said("or")]);
}

#[test]
fn remember_records_a_write() {
    let memory = Memory::new();
    let root = run(&memory, &None, vec![remember("a", lit("1")), remember("a", lit("2"))]).unwrap();
    assert_eq!(root.memories.len(), 2);
    assert_eq!(root.memories[1].1.primitive, JsonValue::String("2".to_string()));
}

#[test]
fn failing_remember_aborts_the_block() {
    let memory = Memory::new();
    let err = run(&memory, &None, vec![say(lit("hi")), remember("a", ident("missing"))]).unwrap_err();
    assert_eq!(err, ErrorKind::UnresolvedVariable);
    let err = run(&memory, &None, vec![remember("a", goto("x"))]).unwrap_err();
    assert_eq!(err, ErrorKind::MalformedBlock);
}

#[test]
fn malformed_statement_aborts_the_block() {
    let memory = Memory::new();
    let err = run(&memory, &None, vec![say(lit("hi")), lit("bare")]).unwrap_err();
    assert_eq!(err, ErrorKind::MalformedBlock);
    let err = run(&memory, &None, vec![Expr::Reserved { fun: "shout".to_string(), arg: Box::new(lit("x")) }]).unwrap_err();
    assert_eq!(err, ErrorKind::MalformedBlock);
    let err = run(&memory, &None, vec![Expr::Reserved { fun: "ask".to_string(), arg: Box::new(lit("x")) }]).unwrap_err();
    assert_eq!(err, ErrorKind::MalformedBlock);
}

#[test]
fn builtins_send_one_message() {
    let memory = Memory::new();
    let action = |name: &str, args: Expr| Expr::Action { builtin: name.to_string(), args: Box::new(args) };
    let block = vec![
        say(action("Text", lit("payload"))),
        say(action("OneOf", lit("payload"))),
        say(action("Button", lit("payload"))),
        say(action("Typing", Expr::Empty)),
        say(action("Image", Expr::VecExpr(vec![lit("a")]))),
        say(Expr::Empty),
    ];
    let root = run(&memory, &None, block).unwrap();
    assert_eq!(
        root.messages,
        vec![
            Message { content_type: "Text".to_string(), content: JsonValue::String("payload".to_string()) },
            Message { content_type: "text".to_string(), content: JsonValue::String("payload".to_string()) },
            Message { content_type: "button".to_string(), content: JsonValue::String("payload".to_string()) },
            Message { content_type: "Typing".to_string(), content: JsonValue::Null },
            Message { content_type: "Image".to_string(), content: JsonValue::Null },
        ]
    );
    let err = run(&memory, &None, vec![say(action("Video", lit("x")))]).unwrap_err();
    assert_eq!(err, ErrorKind::UnknownMethod);
}

#[test]
fn texts_are_ordered_in_conditions() {
    let memory = Memory::new();
    let block = vec![
        when(infix(Infix::LessThan, lit("a"), lit("b")), vec![say(lit("lt"))]),
        when(infix(Infix::GreaterThan, lit("ab"), lit("a")), vec![say(lit("prefix"))]),
        when(infix(Infix::LessThan, lit("b"), lit("a")), vec![say(lit("never"))]),
    ];
    let root = run(&memory, &None, block).unwrap();
    assert_eq!(root.messages, vec![said("lt"), said("prefix")]);
}

#[test]
fn interpolation_writes_every_kind() {
    let memory = Memory::new();
    let arr = Literal {
        content_type: "array".to_string(),
        primitive: JsonValue::Array(vec![JsonValue::Number(1), JsonValue::String("x".to_string())]),
        interval: pos(),
    };
    let object = Literal {
        content_type: "object".to_string(),
        primitive: JsonValue::Object(vec![("k".to_string(), JsonValue::Bool(true))]),
        interval: pos(),
    };
    let half = Literal { content_type: "float".to_string(), primitive: JsonValue::Quotient(7, 2), interval: pos() };
    let parts = Expr::ComplexLiteral(vec![
        Expr::LitExpr(arr),
        lit(" "),
        Expr::LitExpr(object),
        lit(" "),
        Expr::LitExpr(half),
    ]);
    let root = run(&memory, &None, vec![say(parts)]).unwrap();
    assert_eq!(root.messages, vec![said("[1,\"x\"] {\"k\":true} 7/2")]);
}

#[test]
fn merge_is_right_biased() {
    let a = RootInterface {
        memories: vec![("k".to_string(), text("1"))],
        messages: vec![said("a")],
        next_flow: Some("f1".to_string()),
        next_step: Some("s1".to_string()),
    };
    let b = RootInterface {
        memories: vec![("k".to_string(), text("2"))],
        messages: vec![said("b")],
        next_flow: None,
        next_step: Some("s2".to_string()),
    };
    let m = a.merge(b);
    assert_eq!(m.messages, vec![said("a"), said("b")]);
    assert_eq!(m.memories.len(), 2);
    assert_eq!(m.next_step, Some("s2".to_string()));
    assert_eq!(m.next_flow, Some("f1".to_string()));
}

#[test]
fn integer_message_is_text() {
    let m = PrimitiveInt::new(-7).to_msg();
    assert_eq!(m, said("-7"));
}
