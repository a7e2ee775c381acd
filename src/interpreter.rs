use vstd::prelude::*;
use crate::error::{ErrorInfo, ErrorKind};
use crate::json::{entries_view, json_get, json_seq_view, obj_lookup, text_eq, Interval, Json, JsonValue};
use crate::memory::{entry_at, first_index, last_index, resolved_index, Memory, MemoryScope};
use crate::value::{decimal, int_to_decimal, is_cmp, is_eq, value_cmp, value_eq, Literal, Message};

verus! {

/// Comparison and logical operators of conditions.
#[derive(Clone, Copy, Debug, PartialEq, Eq, Structural)]
pub enum Infix {
    Equal,
    GreaterThanEqual,
    LessThanEqual,
    GreaterThan,
    LessThan,
    And,
    Or,
}

/// A node of a step's statement tree.
#[derive(Debug)]
pub enum Expr {
    /// Nothing: an action that sends no message.
    Empty,
    LitExpr(Literal),
    IdentExpr(String),
    /// A scoped access such as `memory.get("x")`: the scope, then the call.
    BuilderExpr(Box<Expr>, Box<Expr>),
    /// Parts written one after the other as text.
    ComplexLiteral(Vec<Expr>),
    InfixExpr(Infix, Box<Expr>, Box<Expr>),
    FunctionExpr(String, Box<Expr>),
    /// A builtin action such as `Text(...)`.
    Action { builtin: String, args: Box<Expr> },
    /// A statement that starts with a reserved keyword: `say`, `retry`,
    /// `ask`, `respond`.
    Reserved { fun: String, arg: Box<Expr> },
    IfExpr { cond: Box<Expr>, consequence: Vec<Expr> },
    Goto(String),
    Remember(String, Box<Expr>),
    VecExpr(Vec<Expr>),
}

/// The user input that triggered a turn.
#[derive(Debug)]
pub struct Event {
    pub content_type: String,
    pub content: JsonValue,
}

/// A literal as the contracts see it: its label and its value.
pub type LitView = (Seq<char>, Json);

/// A message as the contracts see it: its content type and its content.
pub type MsgView = (Seq<char>, Json);

pub open spec fn lit_view(l: Literal) -> LitView {
    (l.content_type@, l.value())
}

pub open spec fn msg_view(m: Message) -> MsgView {
    (m.content_type@, m.content@)
}

/// The text of a scalar: `null`, `true` or `false`, the decimal integer, or
/// a quotient as `num/den` (its exact value, not a rounded decimal).
pub open spec fn scalar_text(v: Json) -> Seq<char> {
    match v {
        Json::Null => "null"@,
        Json::Bool(b) => if b { "true"@ } else { "false"@ },
        Json::Number(n) => decimal(n),
        Json::Quotient(n, d) => decimal(n) + "/"@ + decimal(d),
        _ => Seq::empty(),
    }
}

/// The JSON text of a value. Texts are written between double quotes as
/// they are, without escapes.
pub open spec fn json_text(v: Json) -> Seq<char>
    decreases v,
{
    match v {
        Json::Str(s) => "\""@ + s + "\""@,
        Json::Array(items) => "["@ + items_text(items) + "]"@,
        Json::Object(entries) => "{"@ + fields_text(entries) + "}"@,
        _ => scalar_text(v),
    }
}

/// The JSON texts of array items, separated by commas.
pub open spec fn items_text(items: Seq<Json>) -> Seq<char>
    decreases items,
{
    if items.len() == 0 {
        Seq::empty()
    } else {
        let head = items_text(items.drop_last());
        let sep = if items.len() > 1 { ","@ } else { Seq::empty() };
        head + sep + json_text(items.last())
    }
}

/// The JSON texts of object entries, `"key":value`, separated by commas.
pub open spec fn fields_text(entries: Seq<(Seq<char>, Json)>) -> Seq<char>
    decreases entries,
{
    if entries.len() == 0 {
        Seq::empty()
    } else {
        let head = fields_text(entries.drop_last());
        let sep = if entries.len() > 1 { ","@ } else { Seq::empty() };
        head + sep + "\""@ + entries.last().0 + "\":"@ + json_text(entries.last().1)
    }
}

/// The text that a value reads as inside an interpolated string: a text is
/// itself, arrays and objects are their JSON text.
pub open spec fn text_of(v: Json) -> Seq<char> {
    match v {
        Json::Str(s) => s,
        Json::Array(_) | Json::Object(_) => json_text(v),
        _ => scalar_text(v),
    }
}

fn push_scalar_text(out: &mut String, v: &JsonValue)
    ensures
        final(out)@ == old(out)@ + scalar_text(v@),
{
    proof {
        reveal_strlit("null");
        reveal_strlit("true");
        reveal_strlit("false");
        reveal_strlit("/");
    }
    match v {
        JsonValue::Null => out.append("null"),
        JsonValue::Bool(b) => out.append(if *b { "true" } else { "false" }),
        JsonValue::Number(n) => out.append(int_to_decimal(*n).as_str()),
        JsonValue::Quotient(n, d) => {
            out.append(int_to_decimal(*n).as_str());
            out.append("/");
            out.append(int_to_decimal(*d).as_str());
        },
        _ => {},
    }
    assert(final(out)@ =~= old(out)@ + scalar_text(v@));
}

/// Appends the JSON text of `v` to `out`.
fn push_json_text(out: &mut String, v: &JsonValue)
    ensures
        final(out)@ == old(out)@ + json_text(v@),
    decreases v,
{
    proof {
        reveal_strlit("\"");
        reveal_strlit("[");
        reveal_strlit("]");
        reveal_strlit("{");
        reveal_strlit("}");
        reveal_strlit(",");
        reveal_strlit("\":");
    }
    let ghost start = out@;
    match v {
        JsonValue::String(s) => {
            out.append("\"");
            out.append(s.as_str());
            out.append("\"");
            assert(out@ =~= start + json_text(v@));
        },
        JsonValue::Array(items) => {
            let ghost vs = json_seq_view(items@);
            proof { crate::json::lemma_json_seq_view_index(items@); }
            out.append("[");
            let mut i: usize = 0;
            while i < items.len()
                invariant
                    i <= items@.len(),
                    vs == json_seq_view(items@),
                    vs.len() == items@.len(),
                    forall|j: int| 0 <= j < items@.len() ==> #[trigger] vs[j] == items@[j]@,
                    out@ == start + "["@ + items_text(vs.subrange(0, i as int)),
                    *v == JsonValue::Array(*items),
                decreases items@.len() - i,
            {
                proof {
                    assert((*v)->Array_0 == *items);
                    assert(decreases_to!(*v => (*v)->Array_0));
                    assert(decreases_to!(*items => items@));
                    assert(decreases_to!(items@ => items@[i as int]));
                    let pre = vs.subrange(0, i + 1);
                    assert(pre.drop_last() =~= vs.subrange(0, i as int));
                    assert(pre.last() == items@[i as int]@);
                }
                if i > 0 {
                    out.append(",");
                }
                push_json_text(out, &items[i]);
                i += 1;
                assert(out@ =~= start + "["@ + items_text(vs.subrange(0, i as int)));
            }
            assert(vs.subrange(0, i as int) =~= vs);
            out.append("]");
            assert(out@ =~= start + json_text(v@));
        },
        JsonValue::Object(entries) => {
            let ghost es = entries_view(entries@);
            proof { crate::json::lemma_entries_view_index(entries@); }
            out.append("{");
            let mut i: usize = 0;
            while i < entries.len()
                invariant
                    i <= entries@.len(),
                    es == entries_view(entries@),
                    es.len() == entries@.len(),
                    forall|j: int| 0 <= j < entries@.len() ==> #[trigger] es[j] == (entries@[j].0@, entries@[j].1@),
                    out@ == start + "{"@ + fields_text(es.subrange(0, i as int)),
                    *v == JsonValue::Object(*entries),
                decreases entries@.len() - i,
            {
                proof {
                    assert((*v)->Object_0 == *entries);
                    assert(decreases_to!(*v => (*v)->Object_0));
                    assert(decreases_to!(*entries => entries@));
                    assert(decreases_to!(entries@ => entries@[i as int]));
                    assert(decreases_to!(entries@[i as int] => entries@[i as int].1));
                    let pre = es.subrange(0, i + 1);
                    assert(pre.drop_last() =~= es.subrange(0, i as int));
                    assert(pre.last() == (entries@[i as int].0@, entries@[i as int].1@));
                }
                if i > 0 {
                    out.append(",");
                }
                out.append("\"");
                out.append(entries[i].0.as_str());
                out.append("\":");
                push_json_text(out, &entries[i].1);
                i += 1;
                assert(out@ =~= start + "{"@ + fields_text(es.subrange(0, i as int)));
            }
            assert(es.subrange(0, i as int) =~= es);
            out.append("}");
            assert(out@ =~= start + json_text(v@));
        },
        _ => {
            push_scalar_text(out, v);
        },
    }
}

/// The text that a value reads as inside an interpolated string.
pub fn text_of_value(v: &JsonValue) -> (r: String)
    ensures
        r@ == text_of(v@),
{
    let mut out = String::new();
    match v {
        JsonValue::String(s) => {
            out.append(s.as_str());
        },
        JsonValue::Array(_) | JsonValue::Object(_) => push_json_text(&mut out, v),
        _ => push_scalar_text(&mut out, v),
    }
    assert(out@ =~= text_of(v@));
    out
}

/// What the script's interpreter reads: memory, and the event if there is one.
pub struct AstInterpreter<'a, R: BuiltinResolver> {
    pub memory: &'a Memory,
    pub event: &'a Option<Event>,
    /// Renders the builtin actions.
    pub resolver: &'a R,
}

/// The literal that the identifier `event` stands for: the text of a text
/// event.
pub open spec fn event_literal(ev: Option<Event>) -> Result<LitView, ErrorKind> {
    match ev {
        None => Err(ErrorKind::UnresolvedVariable),
        Some(e) => match e.content@ {
            Json::Object(entries) => if e.content_type@ == "text"@ {
                match obj_lookup(entries, "text"@) {
                    Some(Json::Str(t)) => Ok(("string"@, Json::Str(t))),
                    _ => Err(ErrorKind::UnresolvedVariable),
                }
            } else {
                Err(ErrorKind::UnresolvedVariable)
            },
            _ => Err(ErrorKind::UnresolvedVariable),
        },
    }
}

/// The literal at index `i` of a scope, or an unresolved variable.
pub open spec fn scope_entry(s: Seq<(String, Literal)>, i: int) -> Result<LitView, ErrorKind> {
    if 0 <= i < s.len() {
        Ok(lit_view(s[i].1))
    } else {
        Err(ErrorKind::UnresolvedVariable)
    }
}

pub open spec fn is_ident(e: Expr, name: Seq<char>) -> bool {
    match e {
        Expr::IdentExpr(s) => s@ == name,
        _ => false,
    }
}

pub open spec fn scope_of(m: &Memory, scope: Expr) -> MemoryScope {
    if is_ident(scope, "past"@) {
        m.past
    } else if is_ident(scope, "memory"@) {
        m.current
    } else {
        m.metadata
    }
}

/// The expressions that stand for a value.
pub open spec fn is_value_expr(e: Expr) -> bool {
    e is LitExpr || e is IdentExpr || e is BuilderExpr || e is ComplexLiteral
}

impl<'a, R: BuiltinResolver> AstInterpreter<'a, R> {
    /// What the bare identifier `name` names: the event for `event`, else the
    /// value in memory.
    pub open spec fn var_spec(&self, name: Seq<char>) -> Result<LitView, ErrorKind> {
        if name == "event"@ {
            event_literal(*self.event)
        } else {
            self.memory_var_spec(name)
        }
    }

    /// What `name` names in memory: the last value under it in the first of
    /// metadata, current and past that holds it.
    pub open spec fn memory_var_spec(&self, name: Seq<char>) -> Result<LitView, ErrorKind> {
        let (scope, i) = resolved_index(self.memory, name);
        if scope == 0 {
            scope_entry(self.memory.metadata.entries@, i)
        } else if scope == 1 {
            scope_entry(self.memory.current.entries@, i)
        } else if scope == 2 {
            scope_entry(self.memory.past.entries@, i)
        } else {
            Err(ErrorKind::UnresolvedVariable)
        }
    }

    /// `scope.get(key)` and `scope.first(key)`: the last or the first value
    /// under a literal text key in the scope that the leading identifier
    /// names (`past`, `memory` for the current turn, else metadata).
    pub open spec fn memory_action_spec(&self, scope: Expr, call: Expr) -> Result<LitView, ErrorKind> {
        match call {
            Expr::FunctionExpr(f, arg) => match *arg {
                Expr::LitExpr(key) => match key.value() {
                    Json::Str(k) => {
                        let s = scope_of(self.memory, scope).entries@;
                        if f@ == "get"@ {
                            scope_entry(s, last_index(s, k))
                        } else if f@ == "first"@ {
                            scope_entry(s, first_index(s, k))
                        } else {
                            Err(ErrorKind::UnresolvedVariable)
                        }
                    },
                    _ => Err(ErrorKind::UnresolvedVariable),
                },
                _ => Err(ErrorKind::UnresolvedVariable),
            },
            _ => Err(ErrorKind::UnresolvedVariable),
        }
    }

    /// The literal that a value expression stands for.
    pub open spec fn resolve_spec(&self, e: Expr) -> Result<LitView, ErrorKind>
        decreases e,
    {
        match e {
            Expr::LitExpr(l) => Ok(lit_view(l)),
            Expr::IdentExpr(name) => self.var_spec(name@),
            Expr::BuilderExpr(scope, call) => {
                if is_ident(*scope, "past"@) || is_ident(*scope, "memory"@) || is_ident(*scope, "metadata"@) {
                    self.memory_action_spec(*scope, *call)
                } else {
                    Err(ErrorKind::UnresolvedVariable)
                }
            },
            Expr::ComplexLiteral(parts) => match self.interpolate_spec(parts@) {
                Ok(t) => Ok(("string"@, Json::Str(t))),
                Err(k) => Err(k),
            },
            _ => Err(ErrorKind::UnresolvedVariable),
        }
    }

    /// The text of the parts of an interpolated string, one after the other.
    pub open spec fn interpolate_spec(&self, parts: Seq<Expr>) -> Result<Seq<char>, ErrorKind>
        decreases parts,
    {
        if parts.len() == 0 {
            Ok(Seq::empty())
        } else {
            match self.interpolate_spec(parts.drop_last()) {
                Ok(head) => match self.resolve_spec(parts.last()) {
                    Ok(l) => Ok(head + text_of(l.1)),
                    Err(k) => Err(k),
                },
                Err(k) => Err(k),
            }
        }
    }
}

} // verus!

verus! {

/// The literal and error kind of an outcome.
pub open spec fn lit_outcome(r: Result<Literal, ErrorInfo>) -> Result<LitView, ErrorKind> {
    match r {
        Ok(l) => Ok(lit_view(l)),
        Err(e) => Err(e.kind),
    }
}

fn unresolved(message: &str) -> (r: ErrorInfo)
    ensures
        r.kind == ErrorKind::UnresolvedVariable,
{
    ErrorInfo::new(ErrorKind::UnresolvedVariable, message, Interval { line: 0, column: 0 })
}

proof fn lemma_key_ranges(s: Seq<(String, Literal)>, arg: Expr)
    ensures
        match arg {
            Expr::LitExpr(key) => match key.value() {
                Json::Str(k) => {
                    &&& -1 <= last_index(s, k) < s.len()
                    &&& -1 <= first_index(s, k) < s.len()
                },
                _ => true,
            },
            _ => true,
        },
{
    if let Expr::LitExpr(key) = arg {
        if let Json::Str(k) = key.value() {
            crate::memory::lemma_last_index_range(s, k);
            crate::memory::lemma_first_index_range(s, k);
        }
    }
}

impl<'a, R: BuiltinResolver> AstInterpreter<'a, R> {
    pub fn new(memory: &'a Memory, event: &'a Option<Event>, resolver: &'a R) -> (r: AstInterpreter<'a, R>)
        ensures
            r.memory == memory,
            r.event == event,
            r.resolver == resolver,
    {
        AstInterpreter { memory, event, resolver }
    }

    fn gen_literal_form_event(&self) -> (r: Result<Literal, ErrorInfo>)
        ensures
            lit_outcome(r) == event_literal(*self.event),
    {
        proof {
            reveal_strlit("text");
            reveal_strlit("string");
        }
        match self.event {
            Some(event) => match &event.content {
                JsonValue::Object(entries) => {
                    if !text_eq(event.content_type.as_str(), "text") {
                        return Err(unresolved("event type is unknown"));
                    }
                    match json_get(entries, "text") {
                        Some(JsonValue::String(t)) => Ok(Literal::string("string", t.clone(), Interval { line: 0, column: 0 })),
                        _ => Err(unresolved("event has no text")),
                    }
                },
                _ => Err(unresolved("event type is unknown")),
            },
            None => Err(unresolved("no event is received")),
        }
    }

    fn memorytype_to_literal(&self, found: Option<Literal>) -> (r: Result<Literal, ErrorInfo>)
        ensures
            match found {
                Some(l) => r is Ok && lit_view(r->Ok_0) == lit_view(l),
                None => r is Err && r->Err_0.kind == ErrorKind::UnresolvedVariable,
            },
    {
        match found {
            Some(l) => Ok(l),
            None => Err(unresolved("nothing in memory under this key")),
        }
    }

    fn search_var_memory(&self, name: &str) -> (r: Result<Literal, ErrorInfo>)
        ensures
            lit_outcome(r) == self.memory_var_spec(name@),
    {
        proof {
            crate::memory::lemma_last_index_range(self.memory.metadata.entries@, name@);
            crate::memory::lemma_last_index_range(self.memory.current.entries@, name@);
            crate::memory::lemma_last_index_range(self.memory.past.entries@, name@);
        }
        let found = self.memory.search_var(name);
        self.memorytype_to_literal(found)
    }

    fn get_var(&self, name: &str) -> (r: Result<Literal, ErrorInfo>)
        ensures
            lit_outcome(r) == self.var_spec(name@),
    {
        if text_eq(name, "event") {
            self.gen_literal_form_event()
        } else {
            self.search_var_memory(name)
        }
    }

    fn search_str(&self, name: &str, expr: &Expr) -> (r: bool)
        ensures
            r == is_ident(*expr, name@),
    {
        match expr {
            Expr::IdentExpr(ident) => text_eq(ident.as_str(), name),
            _ => false,
        }
    }

    /// The scope that a builder path's leading identifier names.
    fn scope_for(&self, name: &Expr) -> (r: &'a MemoryScope)
        ensures
            *r == scope_of(self.memory, *name),
    {
        proof {
            reveal_strlit("past");
            reveal_strlit("memory");
        }
        if self.search_str("past", name) {
            &self.memory.past
        } else if self.search_str("memory", name) {
            &self.memory.current
        } else {
            &self.memory.metadata
        }
    }

    fn memory_get(&self, name: &Expr, expr: &Expr) -> (r: Option<Literal>)
        ensures
            match expr {
                Expr::LitExpr(key) => match key.value() {
                    Json::Str(k) => entry_at(scope_of(self.memory, *name).entries@, last_index(scope_of(self.memory, *name).entries@, k), r),
                    _ => r is None,
                },
                _ => r is None,
            },
    {
        match expr {
            Expr::LitExpr(key) => match &key.primitive {
                JsonValue::String(k) => self.scope_for(name).get(k.as_str()),
                _ => None,
            },
            _ => None,
        }
    }

    fn memory_first(&self, name: &Expr, expr: &Expr) -> (r: Option<Literal>)
        ensures
            match expr {
                Expr::LitExpr(key) => match key.value() {
                    Json::Str(k) => entry_at(scope_of(self.memory, *name).entries@, first_index(scope_of(self.memory, *name).entries@, k), r),
                    _ => r is None,
                },
                _ => r is None,
            },
    {
        match expr {
            Expr::LitExpr(key) => match &key.primitive {
                JsonValue::String(k) => self.scope_for(name).first(k.as_str()),
                _ => None,
            },
            _ => None,
        }
    }

    fn get_memory_action(&self, name: &Expr, expr: &Expr) -> (r: Result<Literal, ErrorInfo>)
        ensures
            lit_outcome(r) == self.memory_action_spec(*name, *expr),
    {
        proof {
            reveal_strlit("get");
            reveal_strlit("first");
        }
        match expr {
            Expr::FunctionExpr(f, arg) => {
                proof {
                    let s = scope_of(self.memory, *name).entries@;
                    lemma_key_ranges(s, **arg);
                }
                if text_eq(f.as_str(), "get") {
                    let found = self.memory_get(name, arg);
                    self.memorytype_to_literal(found)
                } else if text_eq(f.as_str(), "first") {
                    let found = self.memory_first(name, arg);
                    self.memorytype_to_literal(found)
                } else {
                    Err(unresolved("unknown memory action"))
                }
            },
            _ => Err(unresolved("unknown memory action")),
        }
    }
}

} // verus!

verus! {

impl<'a, R: BuiltinResolver> AstInterpreter<'a, R> {
    proof fn lemma_interpolate_err(&self, s: Seq<Expr>, n: int)
        requires
            0 <= n <= s.len(),
            self.interpolate_spec(s.subrange(0, n)) is Err,
        ensures
            self.interpolate_spec(s) == self.interpolate_spec(s.subrange(0, n)),
        decreases s.len() - n,
    {
        if n < s.len() {
            assert(s.subrange(0, n + 1).drop_last() =~= s.subrange(0, n));
            self.lemma_interpolate_err(s, n + 1);
        } else {
            assert(s.subrange(0, n) =~= s);
        }
    }

    fn get_string_from_complexstring(&self, exprs: &Vec<Expr>) -> (r: Result<Literal, ErrorInfo>)
        ensures
            lit_outcome(r) == match self.interpolate_spec(exprs@) {
                Ok(t) => Ok(("string"@, Json::Str(t))),
                Err(k) => Err::<LitView, ErrorKind>(k),
            },
        decreases exprs@, 0int,
    {
        proof { reveal_strlit("string"); }
        let mut new_string = String::new();
        let mut i: usize = 0;
        while i < exprs.len()
            invariant
                i <= exprs@.len(),
                self.interpolate_spec(exprs@.subrange(0, i as int)) == Ok::<Seq<char>, ErrorKind>(new_string@),
            decreases exprs@.len() - i,
        {
            let ghost pre = exprs@.subrange(0, i + 1);
            proof {
                assert(pre.drop_last() =~= exprs@.subrange(0, i as int));
                assert(pre.last() == exprs@[i as int]);
                assert(decreases_to!(exprs@ => exprs@[i as int]));
            }
            match self.get_var_from_ident(&exprs[i]) {
                Ok(val) => {
                    let t = text_of_value(&val.primitive);
                    new_string.append(t.as_str());
                },
                Err(e) => {
                    proof { self.lemma_interpolate_err(exprs@, i + 1); }
                    return Err(e);
                },
            }
            i += 1;
        }
        assert(exprs@.subrange(0, i as int) =~= exprs@);
        Ok(Literal::string("string", new_string, Interval { line: 0, column: 0 }))
    }

    fn get_var_from_ident(&self, expr: &Expr) -> (r: Result<Literal, ErrorInfo>)
        ensures
            lit_outcome(r) == self.resolve_spec(*expr),
        decreases *expr, 1int,
    {
        match expr {
            Expr::LitExpr(lit) => Ok(lit.copy()),
            Expr::IdentExpr(ident) => self.get_var(ident.as_str()),
            Expr::BuilderExpr(..) => self.gen_literal_form_builder(expr),
            Expr::ComplexLiteral(..) => self.gen_literal_form_builder(expr),
            _ => Err(unresolved("not a value")),
        }
    }

    fn gen_literal_form_builder(&self, expr: &Expr) -> (r: Result<Literal, ErrorInfo>)
        ensures
            (*expr is BuilderExpr || *expr is ComplexLiteral || *expr is IdentExpr) ==> lit_outcome(r) == self.resolve_spec(*expr),
            !(*expr is BuilderExpr || *expr is ComplexLiteral || *expr is IdentExpr) ==> lit_outcome(r) == Err::<LitView, ErrorKind>(ErrorKind::UnresolvedVariable),
        decreases *expr, 0int,
    {
        proof {
            reveal_strlit("past");
            reveal_strlit("memory");
            reveal_strlit("metadata");
        }
        match expr {
            Expr::BuilderExpr(elem, exp) => {
                if self.search_str("past", elem) || self.search_str("memory", elem) || self.search_str("metadata", elem) {
                    self.get_memory_action(elem, exp)
                } else {
                    Err(unresolved("unknown memory scope"))
                }
            },
            Expr::ComplexLiteral(vec) => self.get_string_from_complexstring(vec),
            Expr::IdentExpr(ident) => self.get_var(ident.as_str()),
            _ => Err(unresolved("not a memory path")),
        }
    }

    fn gen_literal_form_exp(&self, expr: &Expr) -> (r: Result<Literal, ErrorInfo>)
        ensures
            (*expr is LitExpr || *expr is IdentExpr) ==> lit_outcome(r) == self.resolve_spec(*expr),
            !(*expr is LitExpr || *expr is IdentExpr) ==> r is Err,
    {
        match expr {
            Expr::LitExpr(lit) => Ok(lit.copy()),
            Expr::IdentExpr(ident) => self.get_var(ident.as_str()),
            _ => Err(unresolved("expression must be a literal or an identifier")),
        }
    }

    fn check_if_ident(&self, expr: &Expr) -> (r: bool)
        ensures
            r == is_value_expr(*expr),
    {
        match expr {
            Expr::LitExpr(..) => true,
            Expr::IdentExpr(..) => true,
            Expr::BuilderExpr(..) => true,
            Expr::ComplexLiteral(..) => true,
            _ => false,
        }
    }
}

} // verus!

verus! {

/// A comparison between two values. At a leaf the logical operators hold.
pub open spec fn cmp_lit_spec(infix: Infix, a: Json, b: Json) -> bool {
    match infix {
        Infix::Equal => value_eq(a, b),
        Infix::GreaterThanEqual => value_cmp(a, b) == Some(std::cmp::Ordering::Greater) || value_cmp(a, b) == Some(std::cmp::Ordering::Equal),
        Infix::LessThanEqual => value_cmp(a, b) == Some(std::cmp::Ordering::Less) || value_cmp(a, b) == Some(std::cmp::Ordering::Equal),
        Infix::GreaterThan => value_cmp(a, b) == Some(std::cmp::Ordering::Greater),
        Infix::LessThan => value_cmp(a, b) == Some(std::cmp::Ordering::Less),
        Infix::And | Infix::Or => true,
    }
}

/// An operator applied to two booleans, with `false < true`.
pub open spec fn cmp_bool_spec(infix: Infix, b1: bool, b2: bool) -> bool {
    match infix {
        Infix::Equal => b1 == b2,
        Infix::GreaterThanEqual => b1 || !b2,
        Infix::LessThanEqual => !b1 || b2,
        Infix::GreaterThan => b1 && !b2,
        Infix::LessThan => !b1 && b2,
        Infix::And => b1 && b2,
        Infix::Or => b1 || b2,
    }
}

impl<'a, R: BuiltinResolver> AstInterpreter<'a, R> {
    /// Whether a plain operand of a logical node resolves: a literal, or an
    /// identifier that names something.
    pub open spec fn operand_ok(&self, e: Expr) -> bool {
        (e is LitExpr || e is IdentExpr) && self.resolve_spec(e) is Ok
    }

    /// The boolean that an infix node reduces to, or `None` when an operand
    /// does not resolve or the node has a shape that conditions do not take.
    pub open spec fn eval_node(&self, node: Expr) -> Option<bool>
        decreases node,
    {
        match node {
            Expr::InfixExpr(infix, e1, e2) => {
                if is_value_expr(*e1) && is_value_expr(*e2) {
                    match (self.resolve_spec(*e1), self.resolve_spec(*e2)) {
                        (Ok(a), Ok(b)) => Some(cmp_lit_spec(infix, a.1, b.1)),
                        _ => None,
                    }
                } else if *e1 is InfixExpr && *e2 is InfixExpr {
                    match (self.eval_node(*e1), self.eval_node(*e2)) {
                        (Some(a), Some(b)) => Some(cmp_bool_spec(infix, a, b)),
                        _ => None,
                    }
                } else if *e1 is InfixExpr || *e2 is InfixExpr {
                    let (sub, plain) = if *e1 is InfixExpr { (*e1, *e2) } else { (*e2, *e1) };
                    if !self.operand_ok(plain) {
                        None
                    } else if infix == Infix::Or {
                        Some(true)
                    } else if infix == Infix::And {
                        self.eval_node(sub)
                    } else {
                        None
                    }
                } else {
                    None
                }
            },
            _ => None,
        }
    }

    /// Whether a condition holds. Any failure to resolve counts as false.
    pub open spec fn cond_spec(&self, e: Expr) -> bool {
        match e {
            Expr::InfixExpr(..) => self.eval_node(e) == Some(true),
            Expr::LitExpr(_) => true,
            Expr::BuilderExpr(..) | Expr::IdentExpr(_) => self.resolve_spec(e) is Ok,
            _ => false,
        }
    }

    fn cmp_lit(&self, infix: &Infix, lit1: &Literal, lit2: &Literal) -> (r: bool)
        ensures
            r == cmp_lit_spec(*infix, lit1.value(), lit2.value()),
    {
        match infix {
            Infix::Equal => is_eq(&lit1.primitive, &lit2.primitive),
            Infix::GreaterThanEqual => match is_cmp(&lit1.primitive, &lit2.primitive) {
                Some(std::cmp::Ordering::Greater) | Some(std::cmp::Ordering::Equal) => true,
                _ => false,
            },
            Infix::LessThanEqual => match is_cmp(&lit1.primitive, &lit2.primitive) {
                Some(std::cmp::Ordering::Less) | Some(std::cmp::Ordering::Equal) => true,
                _ => false,
            },
            Infix::GreaterThan => match is_cmp(&lit1.primitive, &lit2.primitive) {
                Some(std::cmp::Ordering::Greater) => true,
                _ => false,
            },
            Infix::LessThan => match is_cmp(&lit1.primitive, &lit2.primitive) {
                Some(std::cmp::Ordering::Less) => true,
                _ => false,
            },
            Infix::And => true,
            Infix::Or => true,
        }
    }

    fn cmp_bool(&self, infix: &Infix, b1: bool, b2: bool) -> (r: bool)
        ensures
            r == cmp_bool_spec(*infix, b1, b2),
    {
        match infix {
            Infix::Equal => b1 == b2,
            Infix::GreaterThanEqual => b1 || !b2,
            Infix::LessThanEqual => !b1 || b2,
            Infix::GreaterThan => b1 && !b2,
            Infix::LessThan => !b1 && b2,
            Infix::And => b1 && b2,
            Infix::Or => b1 || b2,
        }
    }

    /// Reduces an infix node to a boolean; `None` when it cannot.
    fn evaluate_condition(&self, node: &Expr) -> (r: Option<bool>)
        ensures
            r == self.eval_node(*node),
        decreases *node,
    {
        let (infix, expr1, expr2) = match node {
            Expr::InfixExpr(infix, e1, e2) => (infix, e1, e2),
            _ => {
                return None;
            },
        };
        if self.check_if_ident(expr1) && self.check_if_ident(expr2) {
            match (self.get_var_from_ident(expr1), self.get_var_from_ident(expr2)) {
                (Ok(l1), Ok(l2)) => Some(self.cmp_lit(infix, &l1, &l2)),
                _ => None,
            }
        } else if matches!(**expr1, Expr::InfixExpr(..)) && matches!(**expr2, Expr::InfixExpr(..)) {
            match (self.evaluate_condition(expr1), self.evaluate_condition(expr2)) {
                (Some(b1), Some(b2)) => Some(self.cmp_bool(infix, b1, b2)),
                _ => None,
            }
        } else if matches!(**expr1, Expr::InfixExpr(..)) || matches!(**expr2, Expr::InfixExpr(..)) {
            let (sub, plain) = if matches!(**expr1, Expr::InfixExpr(..)) { (expr1, expr2) } else { (expr2, expr1) };
            if self.gen_literal_form_exp(plain).is_err() {
                None
            } else {
                match infix {
                    Infix::Or => Some(true),
                    Infix::And => self.evaluate_condition(sub),
                    _ => None,
                }
            }
        } else {
            None
        }
    }

    /// Whether a condition holds; a condition that cannot be evaluated is false.
    fn valid_condition(&self, expr: &Expr) -> (r: bool)
        ensures
            r == self.cond_spec(*expr),
    {
        match expr {
            Expr::InfixExpr(..) => match self.evaluate_condition(expr) {
                Some(b) => b,
                None => false,
            },
            Expr::LitExpr(_) => true,
            Expr::BuilderExpr(..) => self.get_var_from_ident(expr).is_ok(),
            Expr::IdentExpr(ident) => self.get_var(ident.as_str()).is_ok(),
            _ => false,
        }
    }
}

} // verus!

verus! {

/// What interpreting a block produced: messages to send, memory writes in
/// the order they were made (a later write under a name wins), and where to
/// go next.
#[derive(Debug)]
pub struct RootInterface {
    pub memories: Vec<(String, Literal)>,
    pub messages: Vec<Message>,
    pub next_flow: Option<String>,
    pub next_step: Option<String>,
}

/// The value of a [`RootInterface`].
pub struct RootView {
    pub messages: Seq<MsgView>,
    pub memories: Seq<(Seq<char>, LitView)>,
    pub next_step: Option<Seq<char>>,
    pub next_flow: Option<Seq<char>>,
}

pub open spec fn opt_text(o: Option<String>) -> Option<Seq<char>> {
    match o {
        Some(s) => Some(s@),
        None => None,
    }
}

pub open spec fn msgs_view(ms: Seq<Message>) -> Seq<MsgView> {
    ms.map_values(|m: Message| msg_view(m))
}

pub open spec fn writes_view(ws: Seq<(String, Literal)>) -> Seq<(Seq<char>, LitView)> {
    ws.map_values(|w: (String, Literal)| (w.0@, lit_view(w.1)))
}

pub open spec fn root_view(r: RootInterface) -> RootView {
    RootView {
        messages: msgs_view(r.messages@),
        memories: writes_view(r.memories@),
        next_step: opt_text(r.next_step),
        next_flow: opt_text(r.next_flow),
    }
}

pub open spec fn empty_root() -> RootView {
    RootView { messages: Seq::empty(), memories: Seq::empty(), next_step: None, next_flow: None }
}

/// Merges a later result into an earlier one: messages and memory writes
/// follow each other, and a later step or flow overrides an earlier one.
pub open spec fn merge_spec(a: RootView, b: RootView) -> RootView {
    RootView {
        messages: a.messages + b.messages,
        memories: a.memories + b.memories,
        next_step: if b.next_step is Some { b.next_step } else { a.next_step },
        next_flow: if b.next_flow is Some { b.next_flow } else { a.next_flow },
    }
}

/// What one statement adds to the result.
#[derive(Debug)]
pub enum MessageType {
    Empty,
    Msg(Message),
    Msgs(Vec<Message>),
    Assign { name: String, value: Literal },
}

/// The value of a [`MessageType`].
pub enum ActView {
    Empty,
    Msg(MsgView),
    Msgs(Seq<MsgView>),
    Assign(Seq<char>, LitView),
}

pub open spec fn act_view(m: MessageType) -> ActView {
    match m {
        MessageType::Empty => ActView::Empty,
        MessageType::Msg(msg) => ActView::Msg(msg_view(msg)),
        MessageType::Msgs(ms) => ActView::Msgs(msgs_view(ms@)),
        MessageType::Assign { name, value } => ActView::Assign(name@, lit_view(value)),
    }
}

pub open spec fn act_outcome(r: Result<MessageType, ErrorInfo>) -> Result<ActView, ErrorKind> {
    match r {
        Ok(m) => Ok(act_view(m)),
        Err(e) => Err(e.kind),
    }
}

pub open spec fn root_outcome(r: Result<RootInterface, ErrorInfo>) -> Result<RootView, ErrorKind> {
    match r {
        Ok(root) => Ok(root_view(root)),
        Err(e) => Err(e.kind),
    }
}

/// Adds what a statement produced to a result.
pub open spec fn add_act(acc: RootView, act: ActView) -> RootView {
    match act {
        ActView::Empty => acc,
        ActView::Msg(m) => RootView { messages: acc.messages.push(m), ..acc },
        ActView::Msgs(ms) => RootView { messages: acc.messages + ms, ..acc },
        ActView::Assign(name, value) => RootView { memories: acc.memories.push((name, value)), ..acc },
    }
}

/// The message that sends a value as text.
pub open spec fn literal_message(v: Json) -> MsgView {
    ("text"@, Json::Object(seq![("text"@, v)]))
}

/// The builtin actions other than `Button`, and the content type of the
/// message each sends.
pub open spec fn builtin_type(name: Seq<char>) -> Option<Seq<char>> {
    if name == "Typing"@ || name == "Wait"@ || name == "Text"@ || name == "Url"@ || name == "Image"@ {
        Some(name)
    } else if name == "OneOf"@ {
        Some("text"@)
    } else {
        None
    }
}

/// Renders the builtin actions (`Typing`, `Wait`, `Text`, `Url`, `Image`,
/// `OneOf`, `Button`) into message contents. The host supplies it; the shape
/// of each builtin's message is its business, and the interpreter only
/// decides that one message is sent.
pub trait BuiltinResolver {
    /// The content of the message that builtin `name` sends for `args`.
    spec fn content_spec(&self, name: Seq<char>, args: Expr) -> Json;

    /// What `Button` adds to the result for `args`.
    spec fn button_spec(&self, args: Expr) -> ActView;

    fn content(&self, name: &str, args: &Expr) -> (r: JsonValue)
        ensures
            r@ == self.content_spec(name@, *args),
    ;

    fn button(&self, args: &Expr) -> (r: MessageType)
        ensures
            act_view(r) == self.button_spec(*args),
    ;
}

/// A resolver that renders a literal argument as the content itself and any
/// other argument as null; `Button` sends a `button` message of that content.
pub struct LiteralResolver;

/// The content that [`LiteralResolver`] renders for an argument.
pub open spec fn literal_content(args: Expr) -> Json {
    match args {
        Expr::LitExpr(l) => l.value(),
        _ => Json::Null,
    }
}

fn literal_content_of(args: &Expr) -> (r: JsonValue)
    ensures
        r@ == literal_content(*args),
{
    match args {
        Expr::LitExpr(l) => l.primitive.copy(),
        _ => JsonValue::Null,
    }
}

impl BuiltinResolver for LiteralResolver {
    open spec fn content_spec(&self, name: Seq<char>, args: Expr) -> Json {
        literal_content(args)
    }

    open spec fn button_spec(&self, args: Expr) -> ActView {
        ActView::Msg(("button"@, literal_content(args)))
    }

    fn content(&self, name: &str, args: &Expr) -> (r: JsonValue) {
        literal_content_of(args)
    }

    fn button(&self, args: &Expr) -> (r: MessageType) {
        proof { reveal_strlit("button"); }
        MessageType::Msg(Message { content_type: "button".to_owned(), content: literal_content_of(args) })
    }
}

impl RootInterface {
    pub fn new() -> (r: RootInterface)
        ensures
            root_view(r) == empty_root(),
    {
        let r = RootInterface { memories: Vec::new(), messages: Vec::new(), next_flow: None, next_step: None };
        assert(root_view(r).messages =~= Seq::<MsgView>::empty());
        assert(root_view(r).memories =~= Seq::<(Seq<char>, LitView)>::empty());
        r
    }

    pub fn add_message(&mut self, message: Message)
        ensures
            root_view(*final(self)) == (RootView { messages: root_view(*old(self)).messages.push(msg_view(message)), ..root_view(*old(self)) }),
    {
        self.messages.push(message);
        assert(msgs_view(self.messages@) =~= msgs_view(old(self).messages@).push(msg_view(message)));
    }

    pub fn add_to_memory(&mut self, name: String, value: Literal)
        ensures
            root_view(*final(self)) == (RootView { memories: root_view(*old(self)).memories.push((name@, lit_view(value))), ..root_view(*old(self)) }),
    {
        self.memories.push((name, value));
        assert(writes_view(self.memories@) =~= writes_view(old(self).memories@).push((name@, lit_view(value))));
    }

    pub fn add_next_step(&mut self, step: &str)
        ensures
            root_view(*final(self)) == (RootView { next_step: Some(step@), ..root_view(*old(self)) }),
    {
        self.next_step = Some(step.to_owned());
    }

    /// Merges `other`, which came later, into this result.
    pub fn merge(self, other: RootInterface) -> (r: RootInterface)
        ensures
            root_view(r) == merge_spec(root_view(self), root_view(other)),
    {
        let mut a = self;
        let mut b = other;
        let ghost (a0, b0) = (a, b);
        a.messages.append(&mut b.messages);
        a.memories.append(&mut b.memories);
        assert(msgs_view(a.messages@) =~= msgs_view(a0.messages@) + msgs_view(b0.messages@));
        assert(writes_view(a.memories@) =~= writes_view(a0.memories@) + writes_view(b0.memories@));
        let next_step = match b.next_step {
            Some(s) => Some(s),
            None => a.next_step,
        };
        let next_flow = match b.next_flow {
            Some(s) => Some(s),
            None => a.next_flow,
        };
        RootInterface { memories: a.memories, messages: a.messages, next_flow, next_step }
    }
}

} // verus!

verus! {

impl<'a, R: BuiltinResolver> AstInterpreter<'a, R> {
    /// A builtin action: one message of the builtin's content type, whose
    /// content the resolver renders; `Button` is whatever the resolver makes
    /// of it. Any other name is unknown.
    pub open spec fn builtin_spec(&self, name: Seq<char>, args: Expr) -> Result<ActView, ErrorKind> {
        if name == "Button"@ {
            Ok(self.resolver.button_spec(args))
        } else {
            match builtin_type(name) {
                Some(t) => Ok(ActView::Msg((t, self.resolver.content_spec(name, args)))),
                None => Err(ErrorKind::UnknownMethod),
            }
        }
    }

    /// The message that an action sends: none for the empty action.
    pub open spec fn action_spec(&self, action: Expr) -> Result<ActView, ErrorKind> {
        match action {
            Expr::Action { builtin, args } => self.builtin_spec(builtin@, *args),
            Expr::LitExpr(l) => Ok(ActView::Msg(literal_message(l.value()))),
            Expr::BuilderExpr(..) | Expr::ComplexLiteral(..) => match self.resolve_spec(action) {
                Ok(l) => Ok(ActView::Msg(literal_message(l.1))),
                Err(k) => Err(k),
            },
            Expr::Empty => Ok(ActView::Empty),
            _ => Err(ErrorKind::MalformedBlock),
        }
    }

    /// A `say` or `retry` statement.
    pub open spec fn say_spec(&self, fun: Seq<char>, arg: Expr) -> Result<ActView, ErrorKind> {
        if fun == "say"@ || fun == "retry"@ {
            self.action_spec(arg)
        } else {
            Err(ErrorKind::MalformedBlock)
        }
    }

    /// Whether an `ask` or `respond` statement runs its block here: `ask`
    /// without an event, `respond` with one.
    pub open spec fn runs_nested(&self, fun: Seq<char>) -> bool {
        (fun == "ask"@ && *self.event is None) || (fun == "respond"@ && *self.event is Some)
    }

    /// Interprets the statements `stmts` after `acc` was produced. A `goto`
    /// stops the block after it; an `ask` or `respond` that runs its block
    /// stops the block there.
    pub open spec fn run_block(&self, stmts: Seq<Expr>, acc: RootView) -> Result<RootView, ErrorKind>
        decreases stmts,
    {
        if stmts.len() == 0 || acc.next_step is Some {
            Ok(acc)
        } else {
            let rest = stmts.subrange(1, stmts.len() as int);
            match stmts[0] {
                Expr::Reserved { fun, arg } => {
                    if self.runs_nested(fun@) {
                        match *arg {
                            Expr::VecExpr(block) => match self.run_block(block@, empty_root()) {
                                Ok(sub) => Ok(merge_spec(acc, sub)),
                                Err(k) => Err(k),
                            },
                            _ => Err(ErrorKind::MalformedBlock),
                        }
                    } else if fun@ == "ask"@ || fun@ == "respond"@ {
                        self.run_block(rest, acc)
                    } else {
                        match self.say_spec(fun@, *arg) {
                            Ok(act) => self.run_block(rest, add_act(acc, act)),
                            Err(k) => Err(k),
                        }
                    }
                },
                Expr::IfExpr { cond, consequence } => {
                    if self.cond_spec(*cond) {
                        match self.run_block(consequence@, empty_root()) {
                            Ok(sub) => self.run_block(rest, merge_spec(acc, sub)),
                            Err(k) => Err(k),
                        }
                    } else {
                        self.run_block(rest, acc)
                    }
                },
                Expr::Goto(step) => self.run_block(rest, RootView { next_step: Some(step@), ..acc }),
                Expr::Remember(name, e) => {
                    if is_value_expr(*e) {
                        match self.resolve_spec(*e) {
                            Ok(l) => self.run_block(rest, add_act(acc, ActView::Assign(name@, l))),
                            Err(k) => Err(k),
                        }
                    } else {
                        Err(ErrorKind::MalformedBlock)
                    }
                },
                _ => Err(ErrorKind::MalformedBlock),
            }
        }
    }

    /// A statement with a reserved keyword, on its own: `ask` and `respond`
    /// give the messages of their block, `say` and `retry` their action's.
    pub open spec fn reserved_spec(&self, fun: Seq<char>, arg: Expr) -> Result<ActView, ErrorKind> {
        if fun == "ask"@ || fun == "respond"@ {
            match arg {
                Expr::VecExpr(block) => match self.run_block(block@, empty_root()) {
                    Ok(root) => Ok(ActView::Msgs(root.messages)),
                    Err(k) => Err(k),
                },
                _ => Err(ErrorKind::MalformedBlock),
            }
        } else {
            self.say_spec(fun, arg)
        }
    }
}

} // verus!

verus! {

/// The message that sends `v` as text.
pub fn literal_to_message(v: JsonValue) -> (r: Message)
    ensures
        msg_view(r) == literal_message(v@),
{
    proof { reveal_strlit("text"); }
    let entries = vec![("text".to_owned(), v)];
    proof {
        reveal_with_fuel(crate::json::entries_view, 2);
        assert(entries@.subrange(1, 1) =~= Seq::<(String, JsonValue)>::empty());
        assert(entries_view(entries@) =~= seq![("text"@, v@)]);
    }
    Message { content_type: "text".to_owned(), content: JsonValue::Object(entries) }
}

impl<'a, R: BuiltinResolver> AstInterpreter<'a, R> {
    fn match_builtin(&self, builtin: &str, args: &Expr) -> (r: Result<MessageType, ErrorInfo>)
        ensures
            act_outcome(r) == self.builtin_spec(builtin@, *args),
    {
        proof {
            reveal_strlit("Typing");
            reveal_strlit("Wait");
            reveal_strlit("Text");
            reveal_strlit("Url");
            reveal_strlit("Image");
            reveal_strlit("Button");
            reveal_strlit("OneOf");
            reveal_strlit("text");
        }
        if text_eq(builtin, "Button") {
            return Ok(self.resolver.button(args));
        }
        let content_type = if text_eq(builtin, "Typing") || text_eq(builtin, "Wait") || text_eq(builtin, "Text")
            || text_eq(builtin, "Url") || text_eq(builtin, "Image") {
            builtin.to_owned()
        } else if text_eq(builtin, "OneOf") {
            "text".to_owned()
        } else {
            return Err(ErrorInfo::new(ErrorKind::UnknownMethod, "no builtin of this name", Interval { line: 0, column: 0 }));
        };
        let content = self.resolver.content(builtin, args);
        Ok(MessageType::Msg(Message { content_type, content }))
    }

    fn match_action(&self, action: &Expr) -> (r: Result<MessageType, ErrorInfo>)
        ensures
            act_outcome(r) == self.action_spec(*action),
    {
        match action {
            Expr::Action { builtin, args } => self.match_builtin(builtin.as_str(), args),
            Expr::LitExpr(lit) => Ok(MessageType::Msg(literal_to_message(lit.primitive.copy()))),
            Expr::BuilderExpr(..) | Expr::ComplexLiteral(..) => match self.get_var_from_ident(action) {
                Ok(val) => Ok(MessageType::Msg(literal_to_message(val.primitive))),
                Err(e) => Err(e),
            },
            Expr::Empty => Ok(MessageType::Empty),
            _ => Err(ErrorInfo::new(ErrorKind::MalformedBlock, "not a valid action", Interval { line: 0, column: 0 })),
        }
    }

    fn match_reserved(&self, reserved: &str, arg: &Expr) -> (r: Result<MessageType, ErrorInfo>)
        ensures
            act_outcome(r) == self.reserved_spec(reserved@, *arg),
        decreases *arg, 1int,
    {
        proof {
            reveal_strlit("ask");
            reveal_strlit("respond");
            reveal_strlit("say");
            reveal_strlit("retry");
        }
        if text_eq(reserved, "ask") || text_eq(reserved, "respond") {
            if let Expr::VecExpr(block) = arg {
                match self.match_block(block.as_slice()) {
                    Ok(root) => Ok(MessageType::Msgs(root.messages)),
                    Err(e) => Err(e),
                }
            } else {
                Err(ErrorInfo::new(ErrorKind::MalformedBlock, "ask and respond take a block", Interval { line: 0, column: 0 }))
            }
        } else if text_eq(reserved, "say") || text_eq(reserved, "retry") {
            self.match_action(arg)
        } else {
            Err(ErrorInfo::new(ErrorKind::MalformedBlock, "a statement must start with a reserved keyword", Interval { line: 0, column: 0 }))
        }
    }

    fn add_to_message(&self, root: &mut RootInterface, action: MessageType)
        ensures
            root_view(*final(root)) == add_act(root_view(*old(root)), act_view(action)),
    {
        match action {
            MessageType::Msg(msg) => root.add_message(msg),
            MessageType::Msgs(msgs) => {
                let ghost before = root.messages@;
                let mut msgs = msgs;
                let ghost added = msgs@;
                root.messages.append(&mut msgs);
                assert(msgs_view(root.messages@) =~= msgs_view(before) + msgs_view(added));
            },
            MessageType::Assign { name, value } => root.add_to_memory(name, value),
            MessageType::Empty => {},
        }
    }

    fn match_sub_block(&self, arg: &Expr, root: RootInterface) -> (r: Result<RootInterface, ErrorInfo>)
        ensures
            root_outcome(r) == match *arg {
                Expr::VecExpr(block) => match self.run_block(block@, empty_root()) {
                    Ok(sub) => Ok(merge_spec(root_view(root), sub)),
                    Err(k) => Err(k),
                },
                _ => Err::<RootView, ErrorKind>(ErrorKind::MalformedBlock),
            },
        decreases *arg, 1int,
    {
        if let Expr::VecExpr(vec) = arg {
            match self.match_block(vec.as_slice()) {
                Ok(action) => Ok(root.merge(action)),
                Err(e) => Err(e),
            }
        } else {
            Err(ErrorInfo::new(ErrorKind::MalformedBlock, "a nested block must be a list of statements", Interval { line: 0, column: 0 }))
        }
    }

    /// Interprets a block of statements in order, and gives what they
    /// produced, or the error that stopped them.
    pub fn match_block(&self, actions: &[Expr]) -> (r: Result<RootInterface, ErrorInfo>)
        ensures
            root_outcome(r) == self.run_block(actions@, empty_root()),
        decreases actions@, 0int,
    {
        proof {
            reveal_strlit("ask");
            reveal_strlit("respond");
        }
        let mut root = RootInterface::new();
        let mut i: usize = 0;
        assert(actions@.subrange(0, actions@.len() as int) =~= actions@);
        while i < actions.len()
            invariant
                i <= actions@.len(),
                self.run_block(actions@, empty_root()) == self.run_block(actions@.subrange(i as int, actions@.len() as int), root_view(root)),
            decreases actions@.len() - i,
        {
            let ghost stmts = actions@.subrange(i as int, actions@.len() as int);
            let ghost rest = stmts.subrange(1, stmts.len() as int);
            proof {
                assert(stmts[0] == actions@[i as int]);
                assert(rest =~= actions@.subrange(i + 1, actions@.len() as int));
                assert(decreases_to!(actions@ => actions@[i as int]));
            }
            if root.next_step.is_some() {
                return Ok(root);
            }
            match &actions[i] {
                Expr::Reserved { fun, arg } => {
                    let nested = (text_eq(fun.as_str(), "ask") && self.event.is_none())
                        || (text_eq(fun.as_str(), "respond") && self.event.is_some());
                    if nested {
                        return self.match_sub_block(arg, root);
                    } else if text_eq(fun.as_str(), "ask") || text_eq(fun.as_str(), "respond") {
                    } else {
                        match self.match_reserved(fun.as_str(), arg) {
                            Ok(action) => self.add_to_message(&mut root, action),
                            Err(err) => {
                                return Err(err);
                            },
                        }
                    }
                },
                Expr::IfExpr { cond, consequence } => {
                    if self.valid_condition(cond) {
                        match self.match_block(consequence.as_slice()) {
                            Ok(action) => {
                                root = root.merge(action);
                            },
                            Err(err) => {
                                return Err(err);
                            },
                        }
                    }
                },
                Expr::Goto(ident) => {
                    root.add_next_step(ident.as_str());
                },
                Expr::Remember(name, expr) => {
                    if !self.check_if_ident(expr) {
                        return Err(ErrorInfo::new(ErrorKind::MalformedBlock, "remember needs a value", Interval { line: 0, column: 0 }));
                    }
                    match self.get_var_from_ident(expr) {
                        Ok(var) => self.add_to_message(&mut root, MessageType::Assign { name: name.clone(), value: var }),
                        Err(err) => {
                            return Err(err);
                        },
                    }
                },
                _ => {
                    return Err(ErrorInfo::new(ErrorKind::MalformedBlock, "a statement must start with a reserved keyword", Interval { line: 0, column: 0 }));
                },
            }
            i += 1;
        }
        Ok(root)
    }
}

} // verus!

verus! {

impl crate::value::PrimitiveInt {
    /// The message that sends this integer as text.
    pub fn to_msg(&self) -> (r: Message)
        ensures
            msg_view(r) == literal_message(Json::Str(decimal(self.value as int))),
    {
        literal_to_message(JsonValue::String(int_to_decimal(self.value)))
    }
}

} // verus!

verus! {

impl<'a, R: BuiltinResolver> AstInterpreter<'a, R> {
    /// A bare identifier other than `event` names the last value under it in
    /// metadata whenever metadata holds it, whatever the other scopes hold.
    pub proof fn law_identifier_prefers_metadata(&self, name: Seq<char>)
        requires
            name != "event"@,
            last_index(self.memory.metadata.entries@, name) >= 0,
        ensures
            self.var_spec(name) == Ok::<LitView, ErrorKind>(
                lit_view(self.memory.metadata.entries@[last_index(self.memory.metadata.entries@, name)].1),
            ),
    {
        crate::memory::lemma_last_index_range(self.memory.metadata.entries@, name);
    }

    /// A `goto` records its step and ends the block: the statements after it
    /// add nothing.
    pub proof fn law_goto_halts(&self, step: String, rest: Seq<Expr>, acc: RootView)
        requires
            acc.next_step is None,
        ensures
            self.run_block(seq![Expr::Goto(step)] + rest, acc) == Ok::<RootView, ErrorKind>(RootView { next_step: Some(step@), ..acc }),
    {
        let stmts = seq![Expr::Goto(step)] + rest;
        let after = RootView { next_step: Some(step@), ..acc };
        assert(stmts[0] == Expr::Goto(step));
        assert(stmts.subrange(1, stmts.len() as int) =~= rest);
        assert(self.run_block(rest, after) == Ok::<RootView, ErrorKind>(after));
        assert(self.run_block(stmts, acc) == self.run_block(rest, after));
    }

    /// Without an event, `ask` runs its block, merges what it produced and
    /// ends the enclosing block: the statements after it add nothing.
    pub proof fn law_ask_halts(&self, fun: String, block: Vec<Expr>, rest: Seq<Expr>, acc: RootView)
        requires
            *self.event is None,
            fun@ == "ask"@,
            acc.next_step is None,
        ensures
            self.run_block(seq![Expr::Reserved { fun, arg: Box::new(Expr::VecExpr(block)) }] + rest, acc) == match self.run_block(block@, empty_root()) {
                Ok(sub) => Ok(merge_spec(acc, sub)),
                Err(k) => Err::<RootView, ErrorKind>(k),
            },
    {
        let stmts = seq![Expr::Reserved { fun, arg: Box::new(Expr::VecExpr(block)) }] + rest;
        assert(stmts[0] == Expr::Reserved { fun, arg: Box::new(Expr::VecExpr(block)) });
    }

    /// With an event, `ask` is skipped: the block goes on with the statements
    /// after it.
    pub proof fn law_ask_skipped(&self, fun: String, arg: Box<Expr>, rest: Seq<Expr>, acc: RootView)
        requires
            *self.event is Some,
            fun@ == "ask"@,
            acc.next_step is None,
        ensures
            self.run_block(seq![Expr::Reserved { fun, arg }] + rest, acc) == self.run_block(rest, acc),
    {
        reveal_strlit("ask");
        reveal_strlit("respond");
        let stmts = seq![Expr::Reserved { fun, arg }] + rest;
        assert(stmts[0] == Expr::Reserved { fun, arg });
        assert(stmts.subrange(1, stmts.len() as int) =~= rest);
        assert("ask"@ != "respond"@) by {
            assert("ask"@.len() != "respond"@.len());
        }
        assert(!self.runs_nested(fun@));
        assert(self.run_block(stmts, acc) == self.run_block(stmts.subrange(1, stmts.len() as int), acc));
    }
}

} // verus!

verus! {

/// Merging results is associative: messages and memory writes keep one
/// order, and the last step or flow that is set wins either way.
pub proof fn law_merge_associative(a: RootView, b: RootView, c: RootView)
    ensures
        merge_spec(merge_spec(a, b), c) == merge_spec(a, merge_spec(b, c)),
{
    assert(a.messages + b.messages + c.messages =~= a.messages + (b.messages + c.messages));
    assert(a.memories + b.memories + c.memories =~= a.memories + (b.memories + c.memories));
}

} // verus!
