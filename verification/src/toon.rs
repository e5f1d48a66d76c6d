//! TOON, the compact text format the agent context is written in: quoted
//! strings, primitive arrays, and a context made of named sections.

use vstd::prelude::*;
use crate::text::{
    append_chars, append_str, chars_of, contains_seq, is_whitespace, join_spec, nat_decimal,
    string_from_chars, strings_view, trim, trim_spec,
};

verus! {

/// Why encoding failed.
#[derive(Debug, Clone, PartialEq, Eq)]
pub enum ToonError {
    Encoding(String),
}

impl ToonError {
    /// The error's text: `Encoding error: <detail>`.
    pub fn message(&self) -> (s: String)
        ensures
            s@ == "Encoding error: "@ + match self {
                ToonError::Encoding(d) => d@,
            },
    {
        match self {
            ToonError::Encoding(d) => {
                let mut s = String::from_str("Encoding error: ");
                s.append(d.as_str());
                s
            },
        }
    }
}

/// Whether a string must be quoted: it holds a comma, a double quote or a
/// newline, or has surrounding whitespace.
pub open spec fn needs_quotes(v: Seq<char>) -> bool {
    v.contains(',') || v.contains('"') || v.contains('\n') || trim_spec(v) != v
}

pub open spec fn escape_char(c: char) -> Seq<char> {
    if c == '"' {
        seq!['\\', '"']
    } else if c == '\n' {
        seq!['\\', 'n']
    } else {
        seq![c]
    }
}

/// Double quotes and newlines written as `\"` and `\n`.
pub open spec fn escape(v: Seq<char>) -> Seq<char>
    decreases v.len(),
{
    if v.len() == 0 {
        Seq::<char>::empty()
    } else {
        escape(v.drop_last()) + escape_char(v.last())
    }
}

/// A string as TOON writes it: as it is, or quoted and escaped.
pub open spec fn encode_string_spec(v: Seq<char>) -> Seq<char> {
    if needs_quotes(v) {
        seq!['"'] + escape(v) + seq!['"']
    } else {
        v
    }
}

fn has_char(v: &Vec<char>, c: char) -> (b: bool)
    ensures
        b == v@.contains(c),
{
    let mut i: usize = 0;
    while i < v.len()
        invariant
            i <= v@.len(),
            forall|j: int| 0 <= j < i ==> v@[j] != c,
        decreases v.len() - i,
    {
        if v[i] == c {
            assert(v@[i as int] == c);
            return true;
        }
        i = i + 1;
    }
    false
}

/// Escapes and quotes a string where TOON needs it.
pub fn encode_string(val: &str) -> (s: String)
    ensures
        s@ == encode_string_spec(val@),
{
    let v = chars_of(val);
    let t = trim(&v);
    let same = crate::text::chars_eq(&t, &v);
    if has_char(&v, ',') || has_char(&v, '"') || has_char(&v, '\n') || !same {
        let mut out: Vec<char> = Vec::new();
        out.push('"');
        let mut i: usize = 0;
        while i < v.len()
            invariant
                i <= v@.len(),
                out@ == seq!['"'] + escape(v@.take(i as int)),
            decreases v.len() - i,
        {
            let c = v[i];
            proof {
                assert(v@.take(i + 1).drop_last() =~= v@.take(i as int));
                assert(v@.take(i + 1).last() == c);
            }
            let ghost before = out@;
            if c == '"' {
                out.push('\\');
                out.push('"');
            } else if c == '\n' {
                out.push('\\');
                out.push('n');
            } else {
                out.push(c);
            }
            assert(out@ =~= before + escape_char(c));
            assert(out@ =~= seq!['"'] + escape(v@.take(i + 1)));
            i = i + 1;
        }
        assert(v@.take(v@.len() as int) =~= v@);
        out.push('"');
        string_from_chars(&out)
    } else {
        string_from_chars(&v)
    }
}

/// A list of strings as a TOON primitive array: `name: []`, or
/// `name[N]: a,b,c` with each item encoded.
pub open spec fn primitive_array_spec(name: Seq<char>, items: Seq<Seq<char>>) -> Seq<char> {
    if items.len() == 0 {
        name + ": []"@
    } else {
        name + "["@ + nat_decimal(items.len()) + "]: "@ + join_spec(
            items.map_values(|i: Seq<char>| encode_string_spec(i)),
            ","@,
        )
    }
}

pub fn encode_primitive_array(name: &str, items: &[String]) -> (s: String)
    ensures
        s@ == primitive_array_spec(name@, strings_view(items@)),
{
    let ghost iv = strings_view(items@);
    let ghost enc = iv.map_values(|i: Seq<char>| encode_string_spec(i));
    let mut out: Vec<char> = Vec::new();
    append_str(&mut out, name);
    if items.len() == 0 {
        append_str(&mut out, ": []");
        return string_from_chars(&out);
    }
    append_str(&mut out, "[");
    append_chars(&mut out, &crate::text::fmt_u64(items.len() as u64));
    append_str(&mut out, "]: ");
    let ghost head = out@;
    assert(enc.take(0) =~= Seq::<Seq<char>>::empty());
    let mut i: usize = 0;
    while i < items.len()
        invariant
            iv == strings_view(items@),
            enc == iv.map_values(|i: Seq<char>| encode_string_spec(i)),
            i <= items@.len(),
            out@ == head + join_spec(enc.take(i as int), ","@),
        decreases items.len() - i,
    {
        let e = encode_string(items[i].as_str());
        proof {
            assert(enc.take(i + 1).drop_last() =~= enc.take(i as int));
            assert(enc.take(i + 1).last() == encode_string_spec(items@[i as int]@));
        }
        if i > 0 {
            append_str(&mut out, ",");
        }
        let ec = chars_of(e.as_str());
        append_chars(&mut out, &ec);
        proof {
            if i == 0 {
                assert(enc.take(1).len() == 1);
            }
            assert(out@ =~= head + join_spec(enc.take(i + 1), ","@));
        }
        i = i + 1;
    }
    assert(enc.take(items@.len() as int) =~= enc);
    string_from_chars(&out)
}

/// What context building produced: TOON text or a JSON fallback.
pub enum ContextOutput {
    Toon(String),
    Json(String),
}

impl ContextOutput {
    /// The text, whichever form it is in.
    pub fn to_string(&self) -> (s: &str)
        ensures
            s@ == match self {
                ContextOutput::Toon(t) => t@,
                ContextOutput::Json(t) => t@,
            },
    {
        match self {
            ContextOutput::Toon(s) => s.as_str(),
            ContextOutput::Json(s) => s.as_str(),
        }
    }
}

/// A TOON document under construction: its sections, in order.
pub struct ToonContext {
    sections: Vec<String>,
}

pub open spec fn section_text(name: Seq<char>, content: Seq<char>) -> Seq<char> {
    "\n["@ + name + "]\n"@ + content
}

pub open spec fn concat_all(parts: Seq<Seq<char>>) -> Seq<char>
    decreases parts.len(),
{
    if parts.len() == 0 {
        Seq::<char>::empty()
    } else {
        concat_all(parts.drop_last()) + parts.last()
    }
}

/// The sections of a context after `added` (name, content) pairs were added
/// to one holding `start`, one `add_section` call each, in order.
pub open spec fn sections_after(start: Seq<Seq<char>>, added: Seq<(Seq<char>, Seq<char>)>) -> Seq<Seq<char>>
    decreases added.len(),
{
    if added.len() == 0 {
        start
    } else {
        sections_after(start, added.drop_last()).push(section_text(added.last().0, added.last().1))
    }
}

/// `\n[name]\ncontent` for each added pair, in order.
pub open spec fn sections_text(added: Seq<(Seq<char>, Seq<char>)>) -> Seq<char>
    decreases added.len(),
{
    if added.len() == 0 {
        Seq::empty()
    } else {
        sections_text(added.drop_last()) + "\n["@ + added.last().0 + "]\n"@ + added.last().1
    }
}

/// Building a new context after any number of `add_section` calls gives
/// `[TOON v1]` followed by `\n[name]\ncontent` for each call, in call order
/// (with no calls, `[TOON v1]` alone).
pub proof fn law_build_after_sections(added: Seq<(Seq<char>, Seq<char>)>)
    ensures
        concat_all(sections_after(Seq::empty(), added)) == sections_text(added),
        "[TOON v1]"@ + concat_all(sections_after(Seq::empty(), added)) == "[TOON v1]"@ + sections_text(added),
    decreases added.len(),
{
    if added.len() > 0 {
        law_build_after_sections(added.drop_last());
        let prev = sections_after(Seq::empty(), added.drop_last());
        let next = prev.push(section_text(added.last().0, added.last().1));
        assert(next.drop_last() =~= prev);
        assert(concat_all(next) =~= sections_text(added));
    }
}

impl View for ToonContext {
    type V = Seq<Seq<char>>;

    /// The sections' texts, in order.
    closed spec fn view(&self) -> Seq<Seq<char>> {
        strings_view(self.sections@)
    }
}

impl ToonContext {
    pub fn new() -> (c: ToonContext)
        ensures
            c@ == Seq::<Seq<char>>::empty(),
    {
        let c = ToonContext { sections: Vec::new() };
        assert(c@ =~= Seq::<Seq<char>>::empty());
        c
    }

    /// Appends a section `[name]` holding `content`.
    pub fn add_section(&mut self, name: &str, content: String)
        ensures
            final(self)@ == old(self)@.push(section_text(name@, content@)),
    {
        let mut s = String::from_str("\n[");
        s.append(name);
        s.append("]\n");
        s.append(content.as_str());
        let ghost before = self@;
        self.sections.push(s);
        assert(self@ =~= before.push(section_text(name@, content@)));
    }

    /// The document: the header `[TOON v1]`, then every section in the
    /// order it was added.
    pub fn build(&self) -> (r: Result<String, ToonError>)
        ensures
            r matches Ok(s) && s@ == "[TOON v1]"@ + concat_all(self@),
    {
        let mut out = String::from_str("[TOON v1]");
        let ghost secs = self@;
        let mut i: usize = 0;
        while i < self.sections.len()
            invariant
                secs == self@,
                secs == strings_view(self.sections@),
                i <= secs.len(),
                out@ == "[TOON v1]"@ + concat_all(secs.take(i as int)),
            decreases self.sections.len() - i,
        {
            proof {
                assert(secs.take(i + 1).drop_last() =~= secs.take(i as int));
                assert(secs.take(i + 1).last() == self.sections@[i as int]@);
            }
            out.append(self.sections[i].as_str());
            assert(out@ =~= "[TOON v1]"@ + concat_all(secs.take(i + 1)));
            i = i + 1;
        }
        assert(secs.take(secs.len() as int) =~= secs);
        Ok(out)
    }
}

/// A TOON tabular array: `name: []`, or the header `name[N]{fields}:`
/// followed by one indented line per row.
pub open spec fn table_spec(name: Seq<char>, fields: Seq<char>, rows: Seq<Seq<char>>) -> Seq<char> {
    if rows.len() == 0 {
        name + ": []"@
    } else {
        name + "["@ + nat_decimal(rows.len()) + "]{"@ + fields + "}:"@ + concat_all(
            rows.map_values(|r: Seq<char>| "\n  "@ + r),
        )
    }
}

fn table(name: &str, fields: &str, rows: &Vec<String>) -> (s: String)
    ensures
        s@ == table_spec(name@, fields@, strings_view(rows@)),
{
    let ghost rv = strings_view(rows@);
    let ghost lines = rv.map_values(|r: Seq<char>| "\n  "@ + r);
    let mut out: Vec<char> = Vec::new();
    append_str(&mut out, name);
    if rows.len() == 0 {
        append_str(&mut out, ": []");
        return string_from_chars(&out);
    }
    append_str(&mut out, "[");
    append_chars(&mut out, &crate::text::fmt_u64(rows.len() as u64));
    append_str(&mut out, "]{");
    append_str(&mut out, fields);
    append_str(&mut out, "}:");
    let ghost head = out@;
    let mut i: usize = 0;
    assert(lines.take(0) =~= Seq::<Seq<char>>::empty());
    while i < rows.len()
        invariant
            rv == strings_view(rows@),
            lines == rv.map_values(|r: Seq<char>| "\n  "@ + r),
            i <= rows@.len(),
            out@ == head + concat_all(lines.take(i as int)),
        decreases rows.len() - i,
    {
        proof {
            assert(lines.take(i + 1).drop_last() =~= lines.take(i as int));
            assert(lines.take(i + 1).last() == "\n  "@ + rows@[i as int]@);
        }
        append_str(&mut out, "\n  ");
        append_str(&mut out, rows[i].as_str());
        assert(out@ =~= head + concat_all(lines.take(i + 1)));
        i = i + 1;
    }
    assert(lines.take(lines.len() as int) =~= lines);
    string_from_chars(&out)
}

fn push_encoded(out: &mut Vec<char>, v: &str)
    ensures
        final(out)@ == old(out)@ + encode_string_spec(v@),
{
    let e = encode_string(v);
    append_str(out, e.as_str());
}

/// A task, by the text each of its fields is shown with.
pub struct TaskFields {
    pub id: String,
    pub objective: String,
    pub state: String,
    pub risk: String,
    /// The deadline as `%Y-%m-%dT%H:%M:%SZ`, if there is one.
    pub deadline: Option<String>,
}

/// A mission, by the text each of its fields is shown with.
pub struct MissionFields {
    pub id: String,
    pub objective: String,
    pub mode: String,
}

/// A memory, by the text of its content, type and confidence (two decimals).
pub struct MemoryRow {
    pub content: String,
    pub memory_type: String,
    pub confidence: String,
}

/// A policy rule: whether it allows, and what it is about.
pub struct PolicyRuleFields {
    pub allow: bool,
    pub action: String,
    pub resource: String,
}

/// A policy bundle: its id's text, whether it is active, and its rules.
pub struct PolicyBundleFields {
    pub id: String,
    pub is_active: bool,
    pub rules: Vec<PolicyRuleFields>,
}

/// An agent of the roster.
pub struct AgentRow {
    pub id: String,
    pub role: String,
    pub state: String,
}

/// One entry of a lineage.
pub struct LineageRow {
    pub agent_id: String,
    pub parent_agent_id: Option<String>,
    pub state: String,
}

/// A lineage: its root agent and its entries.
pub struct LineageFields {
    pub root_agent_id: String,
    pub entries: Vec<LineageRow>,
}

/// A piece of evidence.
pub struct EvidenceRow {
    pub id: String,
    pub evidence_type: String,
    pub accepted: bool,
}

/// A registered skill; `cost` is its estimated cost in USD, two decimals.
pub struct SkillRow {
    pub name: String,
    pub version: String,
    pub state: String,
    pub cost: String,
}

/// A registered worker.
pub struct WorkerRow {
    pub name: String,
    pub worker_type: String,
    pub state: String,
}

pub open spec fn task_text(t: TaskFields) -> Seq<char> {
    "id: "@ + t.id@ + "\nobjective: "@ + encode_string_spec(t.objective@) + "\nstate: "@ + t.state@ + "\nrisk: "@
        + t.risk@ + "\ndeadline: "@ + match t.deadline {
        Some(d) => d@,
        None => "none"@,
    }
}

pub open spec fn mission_text(m: MissionFields) -> Seq<char> {
    "id: "@ + m.id@ + "\nobjective: "@ + encode_string_spec(m.objective@) + "\nmode: "@ + m.mode@
}

pub open spec fn memory_row(m: MemoryRow) -> Seq<char> {
    encode_string_spec(m.content@) + ","@ + m.memory_type@ + ","@ + m.confidence@
}

pub open spec fn rule_row(bundle_id: Seq<char>, r: PolicyRuleFields) -> Seq<char> {
    bundle_id + ","@ + (if r.allow {
        "ALLOW"@
    } else {
        "DENY"@
    }) + ","@ + encode_string_spec(r.action@) + ","@ + encode_string_spec(r.resource@)
}

/// The rows of every rule of the active bundles, bundle by bundle.
pub open spec fn policy_rows(bundles: Seq<PolicyBundleFields>) -> Seq<Seq<char>>
    decreases bundles.len(),
{
    if bundles.len() == 0 {
        Seq::empty()
    } else {
        let b = bundles.last();
        policy_rows(bundles.drop_last()) + if b.is_active {
            b.rules@.map_values(|r: PolicyRuleFields| rule_row(b.id@, r))
        } else {
            Seq::empty()
        }
    }
}

pub open spec fn agent_row(a: AgentRow) -> Seq<char> {
    a.id@ + ","@ + encode_string_spec(a.role@) + ","@ + a.state@
}

pub open spec fn lineage_row(e: LineageRow) -> Seq<char> {
    e.agent_id@ + ","@ + match e.parent_agent_id {
        Some(p) => p@,
        None => "none"@,
    } + ","@ + e.state@
}

pub open spec fn lineage_text(l: LineageFields) -> Seq<char> {
    "root_agent_id: "@ + l.root_agent_id@ + "\n"@ + table_spec(
        "entries"@,
        "agent_id,parent_agent_id,state"@,
        l.entries@.map_values(|e: LineageRow| lineage_row(e)),
    )
}

pub open spec fn evidence_row(e: EvidenceRow) -> Seq<char> {
    e.id@ + ","@ + e.evidence_type@ + ","@ + if e.accepted {
        "true"@
    } else {
        "false"@
    }
}

/// The last four characters of `x`.
pub open spec fn last_four(x: Seq<char>) -> Seq<char> {
    x.subrange(x.len() - 4, x.len() as int)
}

/// An evidence row is its id, its type and its accepted flag, comma separated,
/// the flag written `true` or `false`: the row ends with `true` exactly when
/// the evidence is accepted.
pub proof fn law_evidence_row_columns(e: EvidenceRow)
    ensures
        evidence_row(e).len() >= e.id@.len() + e.evidence_type@.len() + 6,
        evidence_row(e).take((e.id@.len() + e.evidence_type@.len() + 2) as int) == e.id@ + ","@ + e.evidence_type@ + ","@,
        last_four(evidence_row(e)) == "true"@ <==> e.accepted,
        !e.accepted ==> evidence_row(e).skip((e.id@.len() + e.evidence_type@.len() + 2) as int) == "false"@,
{
    reveal_strlit("true");
    reveal_strlit("false");
    reveal_strlit(",");
    let head = e.id@ + ","@ + e.evidence_type@ + ","@;
    let flag = if e.accepted { "true"@ } else { "false"@ };
    let r = evidence_row(e);
    assert(r == head + flag);
    assert(r.take(head.len() as int) =~= head);
    assert(r.skip(head.len() as int) =~= flag);
    assert(last_four(r) =~= last_four(flag));
    if !e.accepted {
        assert(last_four(flag)[0] == 'a');
    }
}

/// In the encoded evidence table the last row comes last: the table ends with
/// `true` exactly when the last piece of evidence is accepted.
pub proof fn law_evidence_table_ends_with_last_row(ev: Seq<EvidenceRow>)
    requires
        ev.len() > 0,
    ensures
        ({
            let t = table_spec("evidence"@, "id,type,accepted"@, ev.map_values(|e: EvidenceRow| evidence_row(e)));
            &&& t.len() >= 4
            &&& (last_four(t) == "true"@ <==> ev.last().accepted)
        }),
{
    let rows = ev.map_values(|e: EvidenceRow| evidence_row(e));
    let lines = rows.map_values(|r: Seq<char>| "\n  "@ + r);
    let row = evidence_row(ev.last());
    law_evidence_row_columns(ev.last());
    assert(rows.last() == row);
    assert(lines.last() == "\n  "@ + row);
    let t = table_spec("evidence"@, "id,type,accepted"@, rows);
    let pre = "evidence"@ + "["@ + nat_decimal(rows.len()) + "]{"@ + "id,type,accepted"@ + "}:"@
        + concat_all(lines.drop_last()) + "\n  "@;
    assert(concat_all(lines) == concat_all(lines.drop_last()) + lines.last());
    assert(t =~= pre + row);
    assert(last_four(t) =~= last_four(row));
}

pub open spec fn skill_row(k: SkillRow) -> Seq<char> {
    encode_string_spec(k.name@) + ","@ + encode_string_spec(k.version@) + ","@ + k.state@ + ","@ + k.cost@
}

pub open spec fn worker_row(w: WorkerRow) -> Seq<char> {
    encode_string_spec(w.name@) + ","@ + w.worker_type@ + ","@ + w.state@
}

fn memory_row_text(m: &MemoryRow) -> (s: String)
    ensures
        s@ == memory_row(*m),
{
    let mut v: Vec<char> = Vec::new();
    push_encoded(&mut v, m.content.as_str());
    append_str(&mut v, ",");
    append_str(&mut v, m.memory_type.as_str());
    append_str(&mut v, ",");
    append_str(&mut v, m.confidence.as_str());
    assert(v@ =~= memory_row(*m));
    string_from_chars(&v)
}

fn rule_row_text(bundle_id: &str, r: &PolicyRuleFields) -> (s: String)
    ensures
        s@ == rule_row(bundle_id@, *r),
{
    let mut v: Vec<char> = Vec::new();
    append_str(&mut v, bundle_id);
    append_str(&mut v, ",");
    append_str(
        &mut v,
        if r.allow {
            "ALLOW"
        } else {
            "DENY"
        },
    );
    append_str(&mut v, ",");
    push_encoded(&mut v, r.action.as_str());
    append_str(&mut v, ",");
    push_encoded(&mut v, r.resource.as_str());
    assert(v@ =~= rule_row(bundle_id@, *r));
    string_from_chars(&v)
}

fn agent_row_text(a: &AgentRow) -> (s: String)
    ensures
        s@ == agent_row(*a),
{
    let mut v: Vec<char> = Vec::new();
    append_str(&mut v, a.id.as_str());
    append_str(&mut v, ",");
    push_encoded(&mut v, a.role.as_str());
    append_str(&mut v, ",");
    append_str(&mut v, a.state.as_str());
    assert(v@ =~= agent_row(*a));
    string_from_chars(&v)
}

fn lineage_row_text(e: &LineageRow) -> (s: String)
    ensures
        s@ == lineage_row(*e),
{
    let mut v: Vec<char> = Vec::new();
    append_str(&mut v, e.agent_id.as_str());
    append_str(&mut v, ",");
    match &e.parent_agent_id {
        Some(p) => append_str(&mut v, p.as_str()),
        None => append_str(&mut v, "none"),
    }
    append_str(&mut v, ",");
    append_str(&mut v, e.state.as_str());
    assert(v@ =~= lineage_row(*e));
    string_from_chars(&v)
}

fn evidence_row_text(e: &EvidenceRow) -> (s: String)
    ensures
        s@ == evidence_row(*e),
{
    let mut v: Vec<char> = Vec::new();
    append_str(&mut v, e.id.as_str());
    append_str(&mut v, ",");
    append_str(&mut v, e.evidence_type.as_str());
    append_str(&mut v, ",");
    append_str(
        &mut v,
        if e.accepted {
            "true"
        } else {
            "false"
        },
    );
    assert(v@ =~= evidence_row(*e));
    string_from_chars(&v)
}

fn skill_row_text(k: &SkillRow) -> (s: String)
    ensures
        s@ == skill_row(*k),
{
    let mut v: Vec<char> = Vec::new();
    push_encoded(&mut v, k.name.as_str());
    append_str(&mut v, ",");
    push_encoded(&mut v, k.version.as_str());
    append_str(&mut v, ",");
    append_str(&mut v, k.state.as_str());
    append_str(&mut v, ",");
    append_str(&mut v, k.cost.as_str());
    assert(v@ =~= skill_row(*k));
    string_from_chars(&v)
}

fn worker_row_text(w: &WorkerRow) -> (s: String)
    ensures
        s@ == worker_row(*w),
{
    let mut v: Vec<char> = Vec::new();
    push_encoded(&mut v, w.name.as_str());
    append_str(&mut v, ",");
    append_str(&mut v, w.worker_type.as_str());
    append_str(&mut v, ",");
    append_str(&mut v, w.state.as_str());
    assert(v@ =~= worker_row(*w));
    string_from_chars(&v)
}

pub open spec fn task_part(task: Option<&TaskFields>) -> Seq<Seq<char>> {
    match task {
        Some(t) => seq![section_text("task"@, task_text(*t))],
        None => Seq::empty(),
    }
}

pub open spec fn mission_part(mission: Option<&MissionFields>) -> Seq<Seq<char>> {
    match mission {
        Some(m) => seq![section_text("mission"@, mission_text(*m))],
        None => Seq::empty(),
    }
}

pub open spec fn memory_part(memories: Seq<MemoryRow>) -> Seq<Seq<char>> {
    if memories.len() > 0 {
        seq![
            section_text(
                "memory"@,
                table_spec("memories"@, "content,type,confidence"@, memories.map_values(|m: MemoryRow| memory_row(m))),
            ),
        ]
    } else {
        Seq::empty()
    }
}

pub open spec fn policy_part(policies: Seq<PolicyBundleFields>) -> Seq<Seq<char>> {
    if policies.len() > 0 {
        seq![section_text("policy"@, table_spec("policies"@, "bundle_id,effect,action,resource"@, policy_rows(policies)))]
    } else {
        Seq::empty()
    }
}

pub open spec fn agents_part(agents: Seq<AgentRow>) -> Seq<Seq<char>> {
    if agents.len() > 0 {
        seq![section_text("agents"@, table_spec("agents"@, "id,role,state"@, agents.map_values(|a: AgentRow| agent_row(a))))]
    } else {
        Seq::empty()
    }
}

pub open spec fn lineage_part(lineage: Option<&LineageFields>) -> Seq<Seq<char>> {
    match lineage {
        Some(l) => seq![section_text("lineage"@, lineage_text(*l))],
        None => Seq::empty(),
    }
}

pub open spec fn evidence_part(evidence: Seq<EvidenceRow>) -> Seq<Seq<char>> {
    if evidence.len() > 0 {
        seq![
            section_text(
                "evidence"@,
                table_spec("evidence"@, "id,type,accepted"@, evidence.map_values(|e: EvidenceRow| evidence_row(e))),
            ),
        ]
    } else {
        Seq::empty()
    }
}

/// The sections of a context document, in order.
pub open spec fn context_sections(
    task: Option<&TaskFields>,
    mission: Option<&MissionFields>,
    memories: Seq<MemoryRow>,
    policies: Seq<PolicyBundleFields>,
    agents: Seq<AgentRow>,
    lineage: Option<&LineageFields>,
    evidence: Seq<EvidenceRow>,
) -> Seq<Seq<char>> {
    task_part(task) + mission_part(mission) + memory_part(memories) + policy_part(policies) + agents_part(agents)
        + lineage_part(lineage) + evidence_part(evidence)
}

/// What `char::is_alphanumeric` says of a char (Unicode alphabetic or numeric).
pub uninterp spec fn alphanumeric(c: char) -> bool;

/// Calls `char::is_alphanumeric`. Claims its result is `alphanumeric(c)`,
/// and, for ASCII chars, that it holds exactly of letters and digits.
#[verifier::external_body]
fn is_alphanumeric(c: char) -> (b: bool)
    ensures
        b == alphanumeric(c),
        (c as u32) < 128 ==> (b <==> (('a' <= c && c <= 'z') || ('A' <= c && c <= 'Z') || ('0' <= c && c <= '9'))),
{
    c.is_alphanumeric()
}

/// The number of bytes a char takes in UTF-8.
pub open spec fn utf8_len(c: char) -> nat {
    let n = c as u32;
    if n < 0x80 {
        1
    } else if n < 0x800 {
        2
    } else if n < 0x10000 {
        3
    } else {
        4
    }
}

/// How many chars of `s` satisfy `p`.
pub open spec fn count_where(s: Seq<char>, p: spec_fn(char) -> bool) -> nat
    decreases s.len(),
{
    if s.len() == 0 {
        0
    } else {
        count_where(s.drop_last(), p) + if p(s.last()) {
            1nat
        } else {
            0nat
        }
    }
}

/// The UTF-8 length of a text.
pub open spec fn utf8_len_of(s: Seq<char>) -> nat
    decreases s.len(),
{
    if s.len() == 0 {
        0
    } else {
        utf8_len_of(s.drop_last()) + utf8_len(s.last())
    }
}

/// A char that counts against TOON's suitability: not alphanumeric, not
/// whitespace, and none of `_`, `-`, `.`.
pub open spec fn is_special(c: char) -> bool {
    !alphanumeric(c) && !crate::text::is_ws(c) && c != '_' && c != '-' && c != '.'
}

/// The measures of a context document that its suitability is judged by.
#[derive(Debug, Clone, Copy, PartialEq, Eq)]
pub struct ContextStats {
    /// Its length in UTF-8 bytes.
    pub bytes: u64,
    /// How many `{` and `}` it holds.
    pub braces: u64,
    /// How many `[` and `]` it holds.
    pub brackets: u64,
    /// How many special chars it holds.
    pub specials: u64,
}

/// Measures a context document.
pub fn context_stats(doc: &str) -> (st: ContextStats)
    requires
        utf8_len_of(doc@) <= u64::MAX,
    ensures
        st.bytes == utf8_len_of(doc@),
        st.braces == count_where(doc@, |c: char| c == '{' || c == '}'),
        st.brackets == count_where(doc@, |c: char| c == '[' || c == ']'),
        st.specials == count_where(doc@, |c: char| is_special(c)),
{
    let v = chars_of(doc);
    let ghost fb = |c: char| c == '{' || c == '}';
    let ghost fk = |c: char| c == '[' || c == ']';
    let ghost fs = |c: char| is_special(c);
    let mut st = ContextStats { bytes: 0, braces: 0, brackets: 0, specials: 0 };
    let mut i: usize = 0;
    while i < v.len()
        invariant
            v@ == doc@,
            i <= v@.len(),
            utf8_len_of(doc@) <= u64::MAX,
            fb == (|c: char| c == '{' || c == '}'),
            fk == (|c: char| c == '[' || c == ']'),
            fs == (|c: char| is_special(c)),
            st.bytes == utf8_len_of(v@.take(i as int)),
            st.braces == count_where(v@.take(i as int), fb),
            st.brackets == count_where(v@.take(i as int), fk),
            st.specials == count_where(v@.take(i as int), fs),
            st.braces <= i && st.brackets <= i && st.specials <= i,
        decreases v.len() - i,
    {
        let c = v[i];
        proof {
            assert(v@.take(i + 1).drop_last() =~= v@.take(i as int));
            assert(v@.take(i + 1).last() == c);
            lemma_utf8_prefix(v@, i as int + 1);
        }
        let n: u32 = c as u32;
        let w: u64 = if n < 0x80 {
            1
        } else if n < 0x800 {
            2
        } else if n < 0x10000 {
            3
        } else {
            4
        };
        st.bytes = st.bytes + w;
        if c == '{' || c == '}' {
            st.braces = st.braces + 1;
        }
        if c == '[' || c == ']' {
            st.brackets = st.brackets + 1;
        }
        if !is_alphanumeric(c) && !crate::text::is_whitespace(c) && c != '_' && c != '-' && c != '.' {
            st.specials = st.specials + 1;
        }
        i = i + 1;
    }
    assert(v@.take(v@.len() as int) =~= v@);
    st
}

/// A prefix takes no more UTF-8 bytes than the whole.
proof fn lemma_utf8_prefix(s: Seq<char>, k: int)
    requires
        0 <= k <= s.len(),
    ensures
        utf8_len_of(s.take(k)) <= utf8_len_of(s),
    decreases s.len() - k,
{
    if k < s.len() {
        lemma_utf8_prefix(s, k + 1);
        assert(s.take(k + 1).drop_last() =~= s.take(k));
    } else {
        assert(s.take(k) =~= s);
    }
}

/// Encodes lists for the model's context.
pub struct ToonEncoder;

impl ToonEncoder {
    /// A task: its id, objective, state, risk and deadline, one per line.
    pub fn encode_task(task: &TaskFields) -> (r: Result<String, ToonError>)
        ensures
            r matches Ok(s) && s@ == task_text(*task),
    {
        let mut v: Vec<char> = Vec::new();
        append_str(&mut v, "id: ");
        append_str(&mut v, task.id.as_str());
        append_str(&mut v, "\nobjective: ");
        push_encoded(&mut v, task.objective.as_str());
        append_str(&mut v, "\nstate: ");
        append_str(&mut v, task.state.as_str());
        append_str(&mut v, "\nrisk: ");
        append_str(&mut v, task.risk.as_str());
        append_str(&mut v, "\ndeadline: ");
        match &task.deadline {
            Some(d) => append_str(&mut v, d.as_str()),
            None => append_str(&mut v, "none"),
        }
        assert(v@ =~= task_text(*task));
        Ok(string_from_chars(&v))
    }

    /// A mission: its id, objective and lifecycle mode, one per line.
    pub fn encode_mission(mission: &MissionFields) -> (r: Result<String, ToonError>)
        ensures
            r matches Ok(s) && s@ == mission_text(*mission),
    {
        let mut v: Vec<char> = Vec::new();
        append_str(&mut v, "id: ");
        append_str(&mut v, mission.id.as_str());
        append_str(&mut v, "\nobjective: ");
        push_encoded(&mut v, mission.objective.as_str());
        append_str(&mut v, "\nmode: ");
        append_str(&mut v, mission.mode.as_str());
        assert(v@ =~= mission_text(*mission));
        Ok(string_from_chars(&v))
    }

    /// Memories as the table `memories{content,type,confidence}`.
    pub fn encode_memories(memories: &[MemoryRow]) -> (r: Result<String, ToonError>)
        ensures
            r matches Ok(s) && s@ == table_spec(
                "memories"@,
                "content,type,confidence"@,
                memories@.map_values(|m: MemoryRow| memory_row(m)),
            ),
    {
        let mut rows: Vec<String> = Vec::new();
        let mut i: usize = 0;
        while i < memories.len()
            invariant
                i <= memories@.len(),
                strings_view(rows@) == memories@.take(i as int).map_values(|m: MemoryRow| memory_row(m)),
            decreases memories.len() - i,
        {
            let ghost before = strings_view(rows@);
            rows.push(memory_row_text(&memories[i]));
            proof {
                assert(memories@.take(i + 1) =~= memories@.take(i as int).push(memories@[i as int]));
                assert(strings_view(rows@) =~= before.push(memory_row(memories@[i as int])));
                assert(memories@.take(i + 1).map_values(|m: MemoryRow| memory_row(m)) =~= memories@.take(i as int).map_values(|m: MemoryRow| memory_row(m)).push(memory_row(memories@[i as int])));
            }
            i = i + 1;
        }
        assert(memories@.take(memories@.len() as int) =~= memories@);
        Ok(table("memories", "content,type,confidence", &rows))
    }

    /// The rules of the active policy bundles as the table
    /// `policies{bundle_id,effect,action,resource}`.
    pub fn encode_policy_summary(bundles: &[PolicyBundleFields]) -> (r: Result<String, ToonError>)
        ensures
            r matches Ok(s) && s@ == table_spec("policies"@, "bundle_id,effect,action,resource"@, policy_rows(bundles@)),
    {
        let mut rows: Vec<String> = Vec::new();
        let mut i: usize = 0;
        while i < bundles.len()
            invariant
                i <= bundles@.len(),
                strings_view(rows@) == policy_rows(bundles@.take(i as int)),
            decreases bundles.len() - i,
        {
            let b = &bundles[i];
            proof {
                assert(bundles@.take(i + 1).drop_last() =~= bundles@.take(i as int));
                assert(bundles@.take(i + 1).last() == *b);
            }
            if b.is_active {
                let ghost before = strings_view(rows@);
                let ghost rv = b.rules@.map_values(|x: PolicyRuleFields| rule_row(b.id@, x));
                let mut k: usize = 0;
                while k < b.rules.len()
                    invariant
                        k <= b.rules@.len(),
                        rv == b.rules@.map_values(|x: PolicyRuleFields| rule_row(b.id@, x)),
                        strings_view(rows@) == before + rv.take(k as int),
                    decreases b.rules.len() - k,
                {
                    let ghost prev = strings_view(rows@);
                    rows.push(rule_row_text(b.id.as_str(), &b.rules[k]));
                    proof {
                        assert(rv[k as int] == rule_row(b.id@, b.rules@[k as int]));
                        assert(rv.take(k + 1) =~= rv.take(k as int).push(rv[k as int]));
                        assert(strings_view(rows@) =~= prev.push(rv[k as int]));
                    }
                    k = k + 1;
                    assert(strings_view(rows@) =~= before + rv.take(k as int));
                }
                assert(rv.take(rv.len() as int) =~= rv);
            } else {
                assert(policy_rows(bundles@.take(i + 1)) =~= policy_rows(bundles@.take(i as int)));
            }
            i = i + 1;
        }
        assert(bundles@.take(bundles@.len() as int) =~= bundles@);
        Ok(table("policies", "bundle_id,effect,action,resource", &rows))
    }

    /// The agents as the table `agents{id,role,state}`.
    pub fn encode_agent_roster(agents: &[AgentRow]) -> (r: Result<String, ToonError>)
        ensures
            r matches Ok(s) && s@ == table_spec("agents"@, "id,role,state"@, agents@.map_values(|a: AgentRow| agent_row(a))),
    {
        let mut rows: Vec<String> = Vec::new();
        let mut i: usize = 0;
        while i < agents.len()
            invariant
                i <= agents@.len(),
                strings_view(rows@) == agents@.take(i as int).map_values(|a: AgentRow| agent_row(a)),
            decreases agents.len() - i,
        {
            let ghost before = strings_view(rows@);
            rows.push(agent_row_text(&agents[i]));
            proof {
                assert(agents@.take(i + 1) =~= agents@.take(i as int).push(agents@[i as int]));
                assert(strings_view(rows@) =~= before.push(agent_row(agents@[i as int])));
                assert(agents@.take(i + 1).map_values(|a: AgentRow| agent_row(a)) =~= agents@.take(i as int).map_values(|a: AgentRow| agent_row(a)).push(agent_row(agents@[i as int])));
            }
            i = i + 1;
        }
        assert(agents@.take(agents@.len() as int) =~= agents@);
        Ok(table("agents", "id,role,state", &rows))
    }

    /// A lineage: its root, then its entries as the table
    /// `entries{agent_id,parent_agent_id,state}`.
    pub fn encode_lineage(lineage: &LineageFields) -> (r: Result<String, ToonError>)
        ensures
            r matches Ok(s) && s@ == lineage_text(*lineage),
    {
        let mut rows: Vec<String> = Vec::new();
        let mut i: usize = 0;
        while i < lineage.entries.len()
            invariant
                i <= lineage.entries@.len(),
                strings_view(rows@) == lineage.entries@.take(i as int).map_values(|e: LineageRow| lineage_row(e)),
            decreases lineage.entries.len() - i,
        {
            let ghost before = strings_view(rows@);
            rows.push(lineage_row_text(&lineage.entries[i]));
            proof {
                assert(lineage.entries@.take(i + 1) =~= lineage.entries@.take(i as int).push(lineage.entries@[i as int]));
                assert(strings_view(rows@) =~= before.push(lineage_row(lineage.entries@[i as int])));
                assert(lineage.entries@.take(i + 1).map_values(|e: LineageRow| lineage_row(e)) =~= lineage.entries@.take(i as int).map_values(|e: LineageRow| lineage_row(e)).push(lineage_row(lineage.entries@[i as int])));
            }
            i = i + 1;
        }
        assert(lineage.entries@.take(lineage.entries@.len() as int) =~= lineage.entries@);
        let t = table("entries", "agent_id,parent_agent_id,state", &rows);
        let mut v: Vec<char> = Vec::new();
        append_str(&mut v, "root_agent_id: ");
        append_str(&mut v, lineage.root_agent_id.as_str());
        append_str(&mut v, "\n");
        append_str(&mut v, t.as_str());
        assert(v@ =~= lineage_text(*lineage));
        Ok(string_from_chars(&v))
    }

    /// The evidence as the table `evidence{id,type,accepted}`.
    pub fn encode_evidence(evidence: &[EvidenceRow]) -> (r: Result<String, ToonError>)
        ensures
            r matches Ok(s) && s@ == table_spec(
                "evidence"@,
                "id,type,accepted"@,
                evidence@.map_values(|e: EvidenceRow| evidence_row(e)),
            ),
    {
        let mut rows: Vec<String> = Vec::new();
        let mut i: usize = 0;
        while i < evidence.len()
            invariant
                i <= evidence@.len(),
                strings_view(rows@) == evidence@.take(i as int).map_values(|e: EvidenceRow| evidence_row(e)),
            decreases evidence.len() - i,
        {
            let ghost before = strings_view(rows@);
            rows.push(evidence_row_text(&evidence[i]));
            proof {
                assert(evidence@.take(i + 1) =~= evidence@.take(i as int).push(evidence@[i as int]));
                assert(strings_view(rows@) =~= before.push(evidence_row(evidence@[i as int])));
                assert(evidence@.take(i + 1).map_values(|e: EvidenceRow| evidence_row(e)) =~= evidence@.take(i as int).map_values(|e: EvidenceRow| evidence_row(e)).push(evidence_row(evidence@[i as int])));
            }
            i = i + 1;
        }
        assert(evidence@.take(evidence@.len() as int) =~= evidence@);
        Ok(table("evidence", "id,type,accepted", &rows))
    }

    /// The skills as the table `skills{name,version,state,cost}`.
    pub fn encode_skills(skills: &[SkillRow]) -> (r: Result<String, ToonError>)
        ensures
            r matches Ok(s) && s@ == table_spec(
                "skills"@,
                "name,version,state,cost"@,
                skills@.map_values(|k: SkillRow| skill_row(k)),
            ),
    {
        let mut rows: Vec<String> = Vec::new();
        let mut i: usize = 0;
        while i < skills.len()
            invariant
                i <= skills@.len(),
                strings_view(rows@) == skills@.take(i as int).map_values(|k: SkillRow| skill_row(k)),
            decreases skills.len() - i,
        {
            let ghost before = strings_view(rows@);
            rows.push(skill_row_text(&skills[i]));
            proof {
                assert(skills@.take(i + 1) =~= skills@.take(i as int).push(skills@[i as int]));
                assert(strings_view(rows@) =~= before.push(skill_row(skills@[i as int])));
                assert(skills@.take(i + 1).map_values(|k: SkillRow| skill_row(k)) =~= skills@.take(i as int).map_values(|k: SkillRow| skill_row(k)).push(skill_row(skills@[i as int])));
            }
            i = i + 1;
        }
        assert(skills@.take(skills@.len() as int) =~= skills@);
        Ok(table("skills", "name,version,state,cost", &rows))
    }

    /// The workers as the table `workers{name,type,state}`.
    pub fn encode_workers(workers: &[WorkerRow]) -> (r: Result<String, ToonError>)
        ensures
            r matches Ok(s) && s@ == table_spec(
                "workers"@,
                "name,type,state"@,
                workers@.map_values(|w: WorkerRow| worker_row(w)),
            ),
    {
        let mut rows: Vec<String> = Vec::new();
        let mut i: usize = 0;
        while i < workers.len()
            invariant
                i <= workers@.len(),
                strings_view(rows@) == workers@.take(i as int).map_values(|w: WorkerRow| worker_row(w)),
            decreases workers.len() - i,
        {
            let ghost before = strings_view(rows@);
            rows.push(worker_row_text(&workers[i]));
            proof {
                assert(workers@.take(i + 1) =~= workers@.take(i as int).push(workers@[i as int]));
                assert(strings_view(rows@) =~= before.push(worker_row(workers@[i as int])));
                assert(workers@.take(i + 1).map_values(|w: WorkerRow| worker_row(w)) =~= workers@.take(i as int).map_values(|w: WorkerRow| worker_row(w)).push(worker_row(workers@[i as int])));
            }
            i = i + 1;
        }
        assert(workers@.take(workers@.len() as int) =~= workers@);
        Ok(table("workers", "name,type,state", &rows))
    }

    /// The context document: a section for each part that is present (or
    /// non-empty), in the order task, mission, memory, policy, agents,
    /// lineage, evidence.
    pub fn build_context(
        task: Option<&TaskFields>,
        mission: Option<&MissionFields>,
        memories: &[MemoryRow],
        policies: &[PolicyBundleFields],
        agents: &[AgentRow],
        lineage: Option<&LineageFields>,
        evidence: &[EvidenceRow],
    ) -> (r: Result<String, ToonError>)
        ensures
            r matches Ok(s) && s@ == "[TOON v1]"@ + concat_all(
                context_sections(task, mission, memories@, policies@, agents@, lineage, evidence@),
            ),
    {
        let mut ctx = ToonContext::new();
        if let Some(t) = task {
            if let Ok(x) = Self::encode_task(t) {
                ctx.add_section("task", x);
            }
        }
        let ghost a1 = task_part(task);
        assert(ctx@ =~= a1);
        if let Some(m) = mission {
            if let Ok(x) = Self::encode_mission(m) {
                ctx.add_section("mission", x);
            }
        }
        let ghost a2 = a1 + mission_part(mission);
        assert(ctx@ =~= a2);
        if memories.len() > 0 {
            if let Ok(x) = Self::encode_memories(memories) {
                ctx.add_section("memory", x);
            }
        }
        let ghost a3 = a2 + memory_part(memories@);
        assert(ctx@ =~= a3);
        if policies.len() > 0 {
            if let Ok(x) = Self::encode_policy_summary(policies) {
                ctx.add_section("policy", x);
            }
        }
        let ghost a4 = a3 + policy_part(policies@);
        assert(ctx@ =~= a4);
        if agents.len() > 0 {
            if let Ok(x) = Self::encode_agent_roster(agents) {
                ctx.add_section("agents", x);
            }
        }
        let ghost a5 = a4 + agents_part(agents@);
        assert(ctx@ =~= a5);
        if let Some(l) = lineage {
            if let Ok(x) = Self::encode_lineage(l) {
                ctx.add_section("lineage", x);
            }
        }
        let ghost a6 = a5 + lineage_part(lineage);
        assert(ctx@ =~= a6);
        if evidence.len() > 0 {
            if let Ok(x) = Self::encode_evidence(evidence) {
                ctx.add_section("evidence", x);
            }
        }
        assert(ctx@ =~= a6 + evidence_part(evidence@));
        ctx.build()
    }

    /// The chat history as the primitive array `history`.
    pub fn encode_history(history: &[String]) -> (r: Result<String, ToonError>)
        ensures
            r matches Ok(s) && s@ == primitive_array_spec("history"@, strings_view(history@)),
    {
        Ok(encode_primitive_array("history", history))
    }

    /// The registered tools as the primitive array `tools`.
    pub fn encode_tools(tools: &[String]) -> (r: Result<String, ToonError>)
        ensures
            r matches Ok(s) && s@ == primitive_array_spec("tools"@, strings_view(tools@)),
    {
        Ok(encode_primitive_array("tools", tools))
    }
}

} // verus!
