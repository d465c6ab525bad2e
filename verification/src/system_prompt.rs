//! The system prompt: a Nickel record of runtime context (role, working
//! directory, skills, tool prompt hooks) merged into the role's prompt
//! template and evaluated by Nickel.
//!
//! The expression handed to Nickel is built and proved here, and so is the
//! mapping of what Nickel made of it to the rendered prompt. Evaluating it
//! runs the user's Nickel program, which may read files through imports or
//! never finish, and is left to the caller.

use vstd::prelude::*;

use crate::prompt::{hook_contents, hook_text, nickel_escaped, nickel_string_literal, render_tool_prompt_hooks_section};
use crate::proto::PromptHook;
use crate::text::{join, key_is, keyed, lemma_keyed_insert, owned, push_str, seq_lt};

verus! {

broadcast use vstd::string::group_string_axioms;

/// Error of loading or rendering harness settings.
#[derive(Debug)]
pub enum SettingsError {
    /// Nickel evaluation failed; the formatted diagnostic.
    Nickel(String),
    /// The evaluated value did not have the expected shape.
    Deserialize(String),
}

/// What Nickel made of an expression: the string it evaluated to, the
/// message of deserializing a value that is not a string, or the formatted
/// diagnostic of a failed evaluation.
pub enum NickelOutcome {
    Text(String),
    NotText(String),
    Failed(String),
}

/// The rendered prompt for what Nickel made of the expression: the text,
/// a `Deserialize` error when the value is not a string, a `Nickel` error
/// when evaluation failed.
pub fn rendered_prompt(outcome: NickelOutcome) -> (res: Result<String, SettingsError>)
    ensures
        match outcome {
            NickelOutcome::Text(t) => res matches Ok(r) && r@ == t@,
            NickelOutcome::NotText(m) => res matches Err(SettingsError::Deserialize(e)) && e@ == m@,
            NickelOutcome::Failed(m) => res matches Err(SettingsError::Nickel(e)) && e@ == m@,
        },
{
    match outcome {
        NickelOutcome::Text(t) => Ok(t),
        NickelOutcome::NotText(m) => Err(SettingsError::Deserialize(m)),
        NickelOutcome::Failed(m) => Err(SettingsError::Nickel(m)),
    }
}

/// A Nickel string literal of `s`.
pub open spec fn lit(s: Seq<char>) -> Seq<char> {
    seq!['"'] + nickel_escaped(s) + seq!['"']
}

/// A skill offered to the model in the system prompt.
pub struct PromptSkill {
    pub name: String,
    /// Description shown to the model.
    pub description: String,
    /// Whether the skill is listed in the prompt at all.
    pub add_to_prompt: bool,
}

/// The skills listed in the prompt, in their given order.
pub open spec fn listed(s: Seq<PromptSkill>) -> Seq<PromptSkill>
    decreases s.len(),
{
    if s.len() == 0 {
        Seq::empty()
    } else if s.last().add_to_prompt {
        listed(s.drop_last()).push(s.last())
    } else {
        listed(s.drop_last())
    }
}

/// Skills in non-decreasing name order.
pub open spec fn by_name(s: Seq<PromptSkill>) -> bool {
    forall|i: int, j: int| 0 <= i < j < s.len() ==> !seq_lt(#[trigger] s[j].name@, #[trigger] s[i].name@)
}

/// One skill as a Nickel record literal.
pub open spec fn skill_record(sk: PromptSkill) -> Seq<char> {
    "{ name = "@ + lit(sk.name@) + ", description = "@ + lit(sk.description@) + " }"@
}

/// The skill records of a list.
pub open spec fn skill_records(s: Seq<PromptSkill>) -> Seq<Seq<char>> {
    Seq::new(s.len(), |i: int| skill_record(s[i]))
}

/// A Nickel array literal of skill records.
pub open spec fn skills_literal(s: Seq<PromptSkill>) -> Seq<char> {
    seq!['['] + join(skill_records(s), ", "@) + seq![']']
}

/// The key skills are sorted by: their name.
pub open spec fn name_key() -> spec_fn(PromptSkill) -> Seq<char> {
    |sk: PromptSkill| sk.name@
}

/// Skills with equal names in `order` come in the order `listed` gives
/// them: the sort that produced `order` is stable.
pub open spec fn keeps_name_order(order: Seq<PromptSkill>, skills: Seq<PromptSkill>) -> bool {
    forall|k: Seq<char>| #[trigger] keyed(order, name_key(), k) == keyed(listed(skills), name_key(), k)
}

/// The prompt-listed skills sorted by name, stably.
fn sorted_prompt_skills(skills: Vec<PromptSkill>) -> (res: Vec<PromptSkill>)
    ensures
        by_name(res@),
        res@.to_multiset() == listed(skills@).to_multiset(),
        keeps_name_order(res@, skills@),
{
    broadcast use vstd::seq_lib::group_to_multiset_ensures;
    let ghost all = skills@;
    let total = skills.len();
    let mut rest = skills;
    let mut out: Vec<PromptSkill> = Vec::new();
    let mut done: usize = 0;
    assert(all.take(0) =~= Seq::<PromptSkill>::empty());
    while rest.len() > 0
        invariant
            total == all.len(),
            done <= all.len(),
            rest@ == all.skip(done as int),
            by_name(out@),
            out@.to_multiset() == listed(all.take(done as int)).to_multiset(),
            keeps_name_order(out@, all.take(done as int)),
        decreases rest@.len(),
    {
        let sk = rest.remove(0);
        assert(all.take(done + 1).drop_last() =~= all.take(done as int));
        assert(all.take(done + 1).last() == sk);
        assert(all.skip(done as int).drop_first() =~= all.skip(done + 1));
        if sk.add_to_prompt {
            let ghost before = out@;
            let mut i: usize = out.len();
            while i > 0 && crate::text::compare_text(out[i - 1].name.as_str(), sk.name.as_str()) > 0
                invariant
                    out@ == before,
                    i <= before.len(),
                    forall|j: int| i <= j < before.len() ==> seq_lt(sk.name@, #[trigger] before[j].name@),
                decreases i,
            {
                i = i - 1;
            }
            proof {
                if i > 0 {
                    crate::text::lemma_seq_lt_order(before[i - 1].name@, sk.name@, sk.name@);
                }
            }
            let ghost pos = i as int;
            out.insert(i, sk);
            assert(out@ =~= before.insert(pos, sk));
            assert(by_name(out@)) by {
                assert forall|a: int, b: int| 0 <= a < b < out@.len() implies !seq_lt(#[trigger] out@[b].name@, #[trigger] out@[a].name@) by {
                    let t = out@;
                    if b < pos {
                        assert(t[a] == before[a] && t[b] == before[b]);
                    } else if b == pos {
                        assert(t[a] == before[a]);
                        if a < pos - 1 {
                            assert(!seq_lt(before[pos - 1].name@, before[a].name@));
                            crate::text::lemma_seq_lt_order(sk.name@, before[a].name@, before[pos - 1].name@);
                            crate::text::lemma_seq_lt_order(before[a].name@, before[pos - 1].name@, sk.name@);
                            crate::text::lemma_seq_lt_order(sk.name@, before[pos - 1].name@, before[a].name@);
                        }
                    } else if a == pos {
                        assert(t[b] == before[b - 1]);
                        crate::text::lemma_seq_lt_order(sk.name@, before[b - 1].name@, sk.name@);
                    } else if a < pos {
                        assert(t[a] == before[a] && t[b] == before[b - 1]);
                        assert(seq_lt(sk.name@, before[b - 1].name@));
                        if pos > 0 {
                            assert(!seq_lt(sk.name@, before[pos - 1].name@));
                            if a < pos - 1 {
                                assert(!seq_lt(before[pos - 1].name@, before[a].name@));
                            }
                            crate::text::lemma_seq_lt_order(before[b - 1].name@, before[a].name@, before[pos - 1].name@);
                            crate::text::lemma_seq_lt_order(before[b - 1].name@, before[pos - 1].name@, sk.name@);
                            crate::text::lemma_seq_lt_order(before[a].name@, before[pos - 1].name@, sk.name@);
                            crate::text::lemma_seq_lt_order(sk.name@, before[b - 1].name@, before[a].name@);
                            crate::text::lemma_seq_lt_order(before[b - 1].name@, before[a].name@, sk.name@);
                        }
                    } else {
                        assert(t[a] == before[a - 1] && t[b] == before[b - 1]);
                    }
                }
            }
            assert(out@.remove(pos) =~= before);
            assert(out@[pos] == sk);
            proof {
                out@.to_multiset_ensures();
            }
            assert(out@.remove(pos).to_multiset() == out@.to_multiset().remove(sk));
            assert(out@.contains(sk));
            assert(out@.to_multiset().count(sk) > 0);
            assert(out@.to_multiset() =~= before.to_multiset().insert(sk));
            assert(listed(all.take(done + 1)) == listed(all.take(done as int)).push(sk));
            proof {
                listed(all.take(done as int)).to_multiset_ensures();
            }
            assert forall|k: Seq<char>| #[trigger] keyed(out@, name_key(), k) == keyed(listed(all.take(done + 1)), name_key(), k) by {
                assert forall|j: int| pos <= j < before.len() implies seq_lt(name_key()(sk), name_key()(#[trigger] before[j])) by {
                    assert(seq_lt(sk.name@, before[j].name@));
                }
                lemma_keyed_insert(before, pos, sk, name_key(), k);
                before.lemma_filter_push(sk, key_is(name_key(), k));
                listed(all.take(done as int)).lemma_filter_push(sk, key_is(name_key(), k));
                assert(keyed(before, name_key(), k) == keyed(listed(all.take(done as int)), name_key(), k));
            }
        } else {
            assert(listed(all.take(done + 1)) == listed(all.take(done as int)));
        }
        done = done + 1;
    }
    assert(all.take(done as int) =~= all);
    out
}

/// The skills the prompt lists, sorted by name, as a Nickel array of
/// `{ name, description }` records.
pub fn nickel_skills_literal(skills: Vec<PromptSkill>) -> (res: String)
    ensures
        exists|order: Seq<PromptSkill>|
            #[trigger] by_name(order) && order.to_multiset() == listed(skills@).to_multiset()
                && keeps_name_order(order, skills@) && res@ == skills_literal(order),
{
    let sorted = sorted_prompt_skills(skills);
    let mut literal = owned("[");
    let mut index: usize = 0;
    proof {
        reveal_strlit("[");
        reveal_strlit(", ");
    }
    while index < sorted.len()
        invariant
            index <= sorted@.len(),
            literal@ == seq!['['] + join(skill_records(sorted@.take(index as int)), ", "@),
        decreases sorted@.len() - index,
    {
        let ghost before = literal@;
        let skill = &sorted[index];
        if index > 0 {
            push_str(&mut literal, ", ");
        }
        push_str(&mut literal, "{ name = ");
        let name_lit = nickel_string_literal(skill.name.as_str());
        push_str(&mut literal, name_lit.as_str());
        push_str(&mut literal, ", description = ");
        let desc_lit = nickel_string_literal(skill.description.as_str());
        push_str(&mut literal, desc_lit.as_str());
        push_str(&mut literal, " }");
        let ghost recs = skill_records(sorted@.take(index + 1));
        assert(recs.drop_last() =~= skill_records(sorted@.take(index as int)));
        assert(recs.last() == skill_record(sorted@[index as int]));
        assert(literal@ =~= seq!['['] + join(recs, ", "@));
        index = index + 1;
    }
    crate::text::push_char(&mut literal, ']');
    assert(sorted@.take(sorted@.len() as int) =~= sorted@);
    assert(literal@ =~= skills_literal(sorted@));
    literal
}

/// No two skills share a name.
pub open spec fn names_unique(s: Seq<PromptSkill>) -> bool {
    forall|i: int, j: int| 0 <= i < s.len() && 0 <= j < s.len() && i != j ==> #[trigger] s[i].name@ != #[trigger] s[j].name@
}

proof fn lemma_listed_count(s: Seq<PromptSkill>, x: PromptSkill)
    ensures
        listed(s).to_multiset().count(x) == if x.add_to_prompt { s.to_multiset().count(x) } else { 0 },
    decreases s.len(),
{
    broadcast use vstd::seq_lib::group_to_multiset_ensures, vstd::multiset::group_multiset_axioms;
    if s.len() > 0 {
        lemma_listed_count(s.drop_last(), x);
        assert(s.drop_last().push(s.last()) =~= s);
    }
}

proof fn lemma_listed_contained(s: Seq<PromptSkill>)
    ensures
        forall|k: int| 0 <= k < listed(s).len() ==> s.contains(#[trigger] listed(s)[k]),
    decreases s.len(),
{
    if s.len() > 0 {
        let t = s.drop_last();
        lemma_listed_contained(t);
        assert forall|k: int| 0 <= k < listed(s).len() implies s.contains(#[trigger] listed(s)[k]) by {
            if k < listed(t).len() {
                assert(listed(s)[k] == listed(t)[k]);
                assert(t.contains(listed(t)[k]));
                let p = choose|p: int| 0 <= p < t.len() && t[p] == listed(t)[k];
                assert(s[p] == listed(s)[k]);
            } else {
                assert(listed(s)[k] == s.last());
                assert(s[s.len() - 1] == s.last());
            }
        }
    }
}

proof fn lemma_listed_unique(s: Seq<PromptSkill>)
    requires
        names_unique(s),
    ensures
        names_unique(listed(s)),
    decreases s.len(),
{
    if s.len() > 0 {
        let t = s.drop_last();
        assert(names_unique(t)) by {
            assert forall|i: int, j: int| 0 <= i < t.len() && 0 <= j < t.len() && i != j implies #[trigger] t[i].name@ != #[trigger] t[j].name@ by {
                assert(t[i] == s[i] && t[j] == s[j]);
            }
        }
        lemma_listed_unique(t);
        lemma_listed_contained(t);
        if s.last().add_to_prompt {
            let l = listed(s);
            let lt = listed(t);
            assert forall|i: int, j: int| 0 <= i < l.len() && 0 <= j < l.len() && i != j implies #[trigger] l[i].name@ != #[trigger] l[j].name@ by {
                if i < lt.len() && j < lt.len() {
                    assert(l[i] == lt[i] && l[j] == lt[j]);
                } else {
                    let k = if i < lt.len() { i } else { j };
                    assert(l[k] == lt[k]);
                    assert(t.contains(lt[k]));
                    let p = choose|p: int| 0 <= p < t.len() && t[p] == lt[k];
                    assert(s[p] == lt[k]);
                    assert(s[s.len() - 1] == s.last());
                }
            }
        }
    }
}

proof fn lemma_unique_by_multiset(s1: Seq<PromptSkill>, s2: Seq<PromptSkill>)
    requires
        s1.to_multiset() == s2.to_multiset(),
        names_unique(s2),
    ensures
        names_unique(s1),
{
    broadcast use vstd::seq_lib::group_to_multiset_ensures;
    assert(s2.no_duplicates()) by {
        assert forall|i: int, j: int| 0 <= i < s2.len() && 0 <= j < s2.len() && i != j implies s2[i] != s2[j] by {
            assert(s2[i].name@ != s2[j].name@);
        }
    }
    s2.lemma_multiset_has_no_duplicates();
    s1.lemma_multiset_has_no_duplicates_conv();
    assert forall|i: int, j: int| 0 <= i < s1.len() && 0 <= j < s1.len() && i != j implies #[trigger] s1[i].name@ != #[trigger] s1[j].name@ by {
        assert(s1[i] != s1[j]);
        assert(s1.contains(s1[i]) && s1.contains(s1[j]));
        assert(s1.to_multiset().count(s1[i]) > 0 && s1.to_multiset().count(s1[j]) > 0);
        assert(s2.contains(s1[i]) && s2.contains(s1[j]));
        let p = choose|p: int| 0 <= p < s2.len() && s2[p] == s1[i];
        let q = choose|q: int| 0 <= q < s2.len() && s2[q] == s1[j];
        assert(p != q);
        assert(s2[p].name@ != s2[q].name@);
    }
}

proof fn lemma_by_name_unique(x: Seq<PromptSkill>, y: Seq<PromptSkill>)
    requires
        by_name(x),
        by_name(y),
        x.to_multiset() == y.to_multiset(),
        names_unique(x),
    ensures
        x == y,
    decreases x.len(),
{
    broadcast use vstd::seq_lib::group_to_multiset_ensures, vstd::multiset::group_multiset_axioms;
    if x.len() == 0 {
        assert(y.len() == x.to_multiset().len());
        assert(x =~= y);
    } else if y.len() == 0 {
        assert(x.len() == y.to_multiset().len());
    } else {
        assert(x.contains(x[0]));
        assert(y.to_multiset().count(x[0]) > 0);
        assert(y.contains(x[0]));
        assert(y.contains(y[0]));
        assert(x.to_multiset().count(y[0]) > 0);
        assert(x.contains(y[0]));
        let i = choose|i: int| 0 <= i < x.len() && x[i] == y[0];
        let j = choose|j: int| 0 <= j < y.len() && y[j] == x[0];
        if i > 0 {
            assert(!seq_lt(x[i].name@, x[0].name@));
        }
        if j > 0 {
            assert(!seq_lt(y[j].name@, y[0].name@));
        }
        crate::text::lemma_seq_lt_order(x[0].name@, y[0].name@, y[0].name@);
        assert(x[0].name@ == y[0].name@);
        assert(i == 0);
        assert(x[0] == y[0]);
        let x1 = x.drop_first();
        let y1 = y.drop_first();
        assert(x.remove(0) =~= x1);
        assert(y.remove(0) =~= y1);
        assert(x1.to_multiset() == x.to_multiset().remove(x[0]));
        assert(y1.to_multiset() == y.to_multiset().remove(y[0]));
        assert(by_name(x1)) by {
            assert forall|a: int, b: int| 0 <= a < b < x1.len() implies !seq_lt(#[trigger] x1[b].name@, #[trigger] x1[a].name@) by {
                assert(x1[a] == x[a + 1] && x1[b] == x[b + 1]);
            }
        }
        assert(by_name(y1)) by {
            assert forall|a: int, b: int| 0 <= a < b < y1.len() implies !seq_lt(#[trigger] y1[b].name@, #[trigger] y1[a].name@) by {
                assert(y1[a] == y[a + 1] && y1[b] == y[b + 1]);
            }
        }
        assert(names_unique(x1)) by {
            assert forall|a: int, b: int| 0 <= a < x1.len() && 0 <= b < x1.len() && a != b implies #[trigger] x1[a].name@ != #[trigger] x1[b].name@ by {
                assert(x1[a] == x[a + 1] && x1[b] == x[b + 1]);
            }
        }
        lemma_by_name_unique(x1, y1);
        assert(x =~= y) by {
            assert forall|k: int| 0 <= k < x.len() implies x[k] == y[k] by {
                if k > 0 {
                    assert(x[k] == x1[k - 1] && y[k] == y1[k - 1]);
                }
            }
        }
    }
}

/// The system prompt does not depend on the order the skills are handed
/// over in: two listings of the same skills, no two sharing a name, are
/// listed in the same order and give the same Nickel literal, so the
/// prompt stays stable across turns whatever order a map yields them in.
pub proof fn law_skills_literal_ignores_input_order(a: Seq<PromptSkill>, b: Seq<PromptSkill>, order_a: Seq<PromptSkill>, order_b: Seq<PromptSkill>)
    requires
        names_unique(a),
        a.to_multiset() == b.to_multiset(),
        by_name(order_a),
        order_a.to_multiset() == listed(a).to_multiset(),
        by_name(order_b),
        order_b.to_multiset() == listed(b).to_multiset(),
    ensures
        order_a == order_b,
        skills_literal(order_a) == skills_literal(order_b),
{
    assert(listed(a).to_multiset() =~= listed(b).to_multiset()) by {
        assert forall|x: PromptSkill| #[trigger] listed(a).to_multiset().count(x) == listed(b).to_multiset().count(x) by {
            lemma_listed_count(a, x);
            lemma_listed_count(b, x);
        }
    }
    lemma_listed_unique(a);
    lemma_unique_by_multiset(order_a, listed(a));
    lemma_by_name_unique(order_a, order_b);
}

/// The runtime context record merged into the role's prompt template.
pub open spec fn context_record(role: Seq<char>, cwd: Seq<char>, skills: Seq<char>, hooks: Seq<char>) -> Seq<char> {
    "{ roleName | force = "@ + lit(role) + ", cwd | force = "@ + lit(cwd) + ", skills | force = "@ + skills
        + ", toolPromptHooksText | force = "@ + lit(hooks) + " }"@
}

/// The Nickel expression that renders the role's system prompt text.
/// Custom roles may omit `systemPrompt`; then, as for an unknown role name,
/// the built-in smart prompt renders with the selected role name.
pub open spec fn prompt_expression(source: Seq<char>, ctx: Seq<char>) -> Seq<char> {
    "let config = ("@ + source + ") in\nlet ctx = "@ + ctx
        + " in\nlet role = std.record.get_or ctx.roleName {} config.roles in\nlet smartPrompt = config.roles.smart.systemPrompt in\n# Custom roles may omit systemPrompt. In that case (and for an unknown role\n# name), render the built-in smart prompt with the selected roleName in ctx.\n# Built-in roles are expected to define their own systemPrompt records.\nlet rolePrompt = std.record.get_or \"systemPrompt\" smartPrompt role in\n(rolePrompt & ctx).text"@
}

/// Builds the Nickel expression for the system prompt of `role_name`.
pub fn system_prompt_expression(
    nickel_source: &str,
    role_name: &str,
    cwd: &str,
    skills_literal: &str,
    hooks_text: &str,
) -> (res: String)
    ensures
        res@ == prompt_expression(nickel_source@, context_record(role_name@, cwd@, skills_literal@, hooks_text@)),
{
    let mut ctx = owned("{ roleName | force = ");
    push_str(&mut ctx, nickel_string_literal(role_name).as_str());
    push_str(&mut ctx, ", cwd | force = ");
    push_str(&mut ctx, nickel_string_literal(cwd).as_str());
    push_str(&mut ctx, ", skills | force = ");
    push_str(&mut ctx, skills_literal);
    push_str(&mut ctx, ", toolPromptHooksText | force = ");
    push_str(&mut ctx, nickel_string_literal(hooks_text).as_str());
    push_str(&mut ctx, " }");
    assert(ctx@ =~= context_record(role_name@, cwd@, skills_literal@, hooks_text@));
    let mut expr = owned("let config = (");
    push_str(&mut expr, nickel_source);
    push_str(&mut expr, ") in\nlet ctx = ");
    push_str(&mut expr, ctx.as_str());
    push_str(
        &mut expr,
        " in\nlet role = std.record.get_or ctx.roleName {} config.roles in\nlet smartPrompt = config.roles.smart.systemPrompt in\n# Custom roles may omit systemPrompt. In that case (and for an unknown role\n# name), render the built-in smart prompt with the selected roleName in ctx.\n# Built-in roles are expected to define their own systemPrompt records.\nlet rolePrompt = std.record.get_or \"systemPrompt\" smartPrompt role in\n(rolePrompt & ctx).text",
    );
    assert(expr@ =~= prompt_expression(nickel_source@, ctx@));
    expr
}

/// Renders the role/system prompt record of the composed harness Nickel
/// source with runtime prompt context.
pub struct SystemPromptRenderer {
    pub nickel_source: String,
}

impl SystemPromptRenderer {
    /// A renderer for the composed harness Nickel source.
    pub fn new(nickel_source: String) -> (res: Self)
        ensures
            res.nickel_source@ == nickel_source@,
    {
        SystemPromptRenderer { nickel_source }
    }

    /// The Nickel expression this renderer evaluates for `role_name` in
    /// `cwd`, with the given skills and tool prompt hook.
    pub fn expression(&self, skills: Vec<PromptSkill>, cwd: &str, role_name: &str, tool_prompt_hook: &PromptHook) -> (res: String)
        ensures
            exists|order: Seq<PromptSkill>|
                #[trigger] by_name(order) && order.to_multiset() == listed(skills@).to_multiset()
                    && keeps_name_order(order, skills@) && res@ == prompt_expression(
                        self.nickel_source@,
                        context_record(role_name@, cwd@, skills_literal(order), hook_text(hook_contents(tool_prompt_hook@))),
                    ),
    {
        let skills_lit = nickel_skills_literal(skills);
        let hooks = render_tool_prompt_hooks_section(tool_prompt_hook);
        system_prompt_expression(self.nickel_source.as_str(), role_name, cwd, skills_lit.as_str(), hooks.as_str())
    }
}

} // verus!
