use vstd::prelude::*;
use crate::text::{
    chars_of, has_prefix, slice_chars, starts_with, substring, trim_bounds, trim_range,
};

verus! {

/// Rules of one kind (allow or disallow) for one user agent.
#[derive(Debug)]
pub struct AgentRules {
    pub agent: String,
    pub paths: Vec<String>,
}

/// Per-agent rule lists, as agent name and path prefixes in file order.
pub type RulesView = Seq<(Seq<char>, Seq<Seq<char>>)>;

impl View for AgentRules {
    type V = (Seq<char>, Seq<Seq<char>>);

    open spec fn view(&self) -> (Seq<char>, Seq<Seq<char>>) {
        (self.agent@, self.paths@.map_values(|p: String| p@))
    }
}

pub open spec fn rules_view(v: Seq<AgentRules>) -> RulesView {
    v.map_values(|r: AgentRules| r@)
}

/// `i` is the first entry of `e` for agent `a`.
pub open spec fn first_entry(e: RulesView, a: Seq<char>, i: int) -> bool {
    0 <= i < e.len() && e[i].0 == a && forall|j: int| 0 <= j < i ==> e[j].0 != a
}

pub open spec fn has_agent(e: RulesView, a: Seq<char>) -> bool {
    exists|i: int| first_entry(e, a, i)
}

/// The path prefixes listed for agent `a` (none when it has no entry).
pub open spec fn rules_for(e: RulesView, a: Seq<char>) -> Seq<Seq<char>> {
    if has_agent(e, a) {
        e[choose|i: int| first_entry(e, a, i)].1
    } else {
        seq![]
    }
}

/// Some rule of `rules` is a prefix of `path`.
pub open spec fn any_prefix(rules: Seq<Seq<char>>, path: Seq<char>) -> bool {
    exists|k: int| 0 <= k < rules.len() && has_prefix(path, rules[k])
}

/// An allow rule that matches wins; else a disallow rule that matches
/// refuses; else the path is allowed.
pub open spec fn allows(allow: RulesView, disallow: RulesView, agent: Seq<char>, path: Seq<char>) -> bool {
    any_prefix(rules_for(allow, agent), path) || !any_prefix(rules_for(disallow, agent), path)
}

/// `e` with an (empty) entry for `a` when it had none.
pub open spec fn ensure_agent(e: RulesView, a: Seq<char>) -> RulesView {
    if has_agent(e, a) {
        e
    } else {
        e.push((a, seq![]))
    }
}

/// `e` with `p` appended to the rules of agent `a`.
pub open spec fn add_rule(e: RulesView, a: Seq<char>, p: Seq<char>) -> RulesView {
    if has_agent(e, a) {
        let i = choose|i: int| first_entry(e, a, i);
        e.update(i, (a, e[i].1.push(p)))
    } else {
        e.push((a, seq![p]))
    }
}

/// Rules read so far and the agent that the next rules belong to.
pub type ParseState = (RulesView, RulesView, Seq<char>);

/// The value of a `Token:` line: the text after the token up to the next
/// `:`, trimmed.
pub open spec fn field(line: Seq<char>, start: int) -> Seq<char> {
    trim_range(line, start, next_colon(line, start))
}

pub open spec fn next_colon(s: Seq<char>, i: int) -> int
    decreases s.len() - i,
{
    if i < 0 || i >= s.len() {
        s.len() as int
    } else if s[i] == ':' {
        i
    } else {
        next_colon(s, i + 1)
    }
}

/// The effect of one line of a robots file.
pub open spec fn apply_line(st: ParseState, line: Seq<char>) -> ParseState {
    if has_prefix(line, "User-agent:"@) {
        let ua = field(line, "User-agent:"@.len() as int);
        (ensure_agent(st.0, ua), ensure_agent(st.1, ua), ua)
    } else if has_prefix(line, "Allow:"@) {
        (add_rule(st.0, st.2, field(line, "Allow:"@.len() as int)), st.1, st.2)
    } else if has_prefix(line, "Disallow:"@) {
        (st.0, add_rule(st.1, st.2, field(line, "Disallow:"@.len() as int)), st.2)
    } else {
        st
    }
}

/// Index of the `'\n'` that ends the line starting at `i` (or the length).
pub open spec fn line_end(s: Seq<char>, i: int) -> int
    decreases s.len() - i,
{
    if i < 0 || i >= s.len() {
        s.len() as int
    } else if s[i] == '\n' {
        i
    } else {
        line_end(s, i + 1)
    }
}

/// The line starting at `i`, without its `"\n"` or `"\r\n"` ending, as
/// `str::lines` yields it.
pub open spec fn line_at(s: Seq<char>, i: int) -> Seq<char> {
    let e = line_end(s, i);
    if e < s.len() && e > i && s[e - 1] == '\r' {
        s.subrange(i, e - 1)
    } else {
        s.subrange(i, e)
    }
}

/// The state after the lines of `s` from position `i` on.
pub open spec fn parse_from(s: Seq<char>, i: int, st: ParseState) -> ParseState
    decreases s.len() - i,
{
    if i < 0 || i >= s.len() {
        st
    } else {
        let e = line_end(s, i);
        let next = apply_line(st, line_at(s, i));
        if e < i || e + 1 >= s.len() {
            next
        } else {
            parse_from(s, e + 1, next)
        }
    }
}

/// The rules of a robots file: no rules and agent `*` at the start.
pub open spec fn robots_of(text: Seq<char>) -> ParseState {
    parse_from(text, 0, (seq![], seq![], "*"@))
}

/// No agent has two entries.
pub open spec fn unique_agents(e: RulesView) -> bool {
    forall|i: int, j: int| 0 <= i < j < e.len() ==> (#[trigger] e[i]).0 != (#[trigger] e[j]).0
}

proof fn lemma_ensure_keeps_unique(e: RulesView, a: Seq<char>)
    requires
        unique_agents(e),
    ensures
        unique_agents(ensure_agent(e, a)),
{
    if !has_agent(e, a) {
        let f = e.push((a, seq![]));
        assert forall|i: int, j: int| 0 <= i < j < f.len() implies (#[trigger] f[i]).0 != (#[trigger] f[j]).0 by {
            if j == e.len() && f[i].0 == a {
                assert(first_entry(e, a, i));
            }
        }
    }
}

proof fn lemma_add_keeps_unique(e: RulesView, a: Seq<char>, p: Seq<char>)
    requires
        unique_agents(e),
    ensures
        unique_agents(add_rule(e, a, p)),
{
    if has_agent(e, a) {
        let k = choose|k: int| first_entry(e, a, k);
        let f = e.update(k, (a, e[k].1.push(p)));
        assert forall|i: int, j: int| 0 <= i < j < f.len() implies (#[trigger] f[i]).0 != (#[trigger] f[j]).0 by {
            assert(f[i].0 == e[i].0 && f[j].0 == e[j].0);
        }
    } else {
        let f = e.push((a, seq![p]));
        assert forall|i: int, j: int| 0 <= i < j < f.len() implies (#[trigger] f[i]).0 != (#[trigger] f[j]).0 by {
            if j == e.len() && f[i].0 == a {
                assert(first_entry(e, a, i));
            }
        }
    }
}

proof fn lemma_parse_keeps_unique(s: Seq<char>, i: int, st: ParseState)
    requires
        unique_agents(st.0),
        unique_agents(st.1),
    ensures
        unique_agents(parse_from(s, i, st).0),
        unique_agents(parse_from(s, i, st).1),
    decreases s.len() - i,
{
    if 0 <= i < s.len() {
        let line = line_at(s, i);
        let next = apply_line(st, line);
        if has_prefix(line, "User-agent:"@) {
            let ua = field(line, "User-agent:"@.len() as int);
            lemma_ensure_keeps_unique(st.0, ua);
            lemma_ensure_keeps_unique(st.1, ua);
        } else if has_prefix(line, "Allow:"@) {
            lemma_add_keeps_unique(st.0, st.2, field(line, "Allow:"@.len() as int));
        } else if has_prefix(line, "Disallow:"@) {
            lemma_add_keeps_unique(st.1, st.2, field(line, "Disallow:"@.len() as int));
        }
        let e = line_end(s, i);
        if !(e < i || e + 1 >= s.len()) {
            lemma_parse_keeps_unique(s, e + 1, next);
        }
    }
}

/// Each agent has at most one entry in the rules read from a robots file.
pub proof fn lemma_robots_agents_unique(text: Seq<char>)
    ensures
        unique_agents(robots_of(text).0),
        unique_agents(robots_of(text).1),
{
    lemma_parse_keeps_unique(text, 0, (seq![], seq![], "*"@));
}

/// Allow and disallow rules of a site's robots file.
#[derive(Debug)]
pub struct RobotsTxt {
    allow_rules: Vec<AgentRules>,
    disallow_rules: Vec<AgentRules>,
}

impl View for RobotsTxt {
    type V = (RulesView, RulesView);

    closed spec fn view(&self) -> (RulesView, RulesView) {
        (rules_view(self.allow_rules@), rules_view(self.disallow_rules@))
    }
}

proof fn lemma_first_entry_unique(e: RulesView, a: Seq<char>, i: int)
    requires
        first_entry(e, a, i),
    ensures
        has_agent(e, a),
        (choose|k: int| first_entry(e, a, k)) == i,
        rules_for(e, a) == e[i].1,
{
    let k = choose|k: int| first_entry(e, a, k);
    if k < i {
        assert(e[k].0 != a);
    } else if k > i {
        assert(e[i].0 != a);
    }
}

proof fn lemma_rules_view_push(v: Seq<AgentRules>, r: AgentRules)
    ensures
        rules_view(v.push(r)) == rules_view(v).push(r@),
{
    assert(rules_view(v.push(r)) =~= rules_view(v).push(r@));
}

fn find_agent(v: &Vec<AgentRules>, a: &String) -> (r: Option<usize>)
    ensures
        match r {
            Some(i) => first_entry(rules_view(v@), a@, i as int),
            None => !has_agent(rules_view(v@), a@),
        },
{
    let ghost e = rules_view(v@);
    let mut i: usize = 0;
    while i < v.len()
        invariant
            i <= v@.len(),
            e == rules_view(v@),
            forall|j: int| 0 <= j < i ==> e[j].0 != a@,
        decreases v@.len() - i,
    {
        if v[i].agent == *a {
            return Some(i);
        }
        i = i + 1;
    }
    assert forall|k: int| !first_entry(e, a@, k) by {
        if 0 <= k < e.len() {
            assert(e[k].0 != a@);
        }
    }
    None
}

fn ensure_agent_exec(v: &mut Vec<AgentRules>, a: &String)
    ensures
        rules_view(final(v)@) == ensure_agent(rules_view(old(v)@), a@),
{
    match find_agent(v, a) {
        Some(i) => {
            proof {
                lemma_first_entry_unique(rules_view(v@), a@, i as int);
            }
        },
        None => {
            let r = AgentRules { agent: a.clone(), paths: Vec::new() };
            proof {
                lemma_rules_view_push(v@, r);
                assert(r@.1 =~= Seq::<Seq<char>>::empty());
            }
            v.push(r);
        },
    }
}

fn add_rule_exec(v: &mut Vec<AgentRules>, a: &String, p: String)
    ensures
        rules_view(final(v)@) == add_rule(rules_view(old(v)@), a@, p@),
{
    let ghost e = rules_view(v@);
    match find_agent(v, a) {
        Some(i) => {
            proof {
                lemma_first_entry_unique(e, a@, i as int);
            }
            let mut r = v.remove(i);
            let ghost old_paths = r.paths@;
            r.paths.push(p);
            proof {
                assert(r.paths@.map_values(|q: String| q@) =~= old_paths.map_values(
                    |q: String| q@,
                ).push(p@));
            }
            v.insert(i, r);
            proof {
                assert(rules_view(v@) =~= e.update(i as int, (a@, e[i as int].1.push(p@))));
            }
        },
        None => {
            let mut paths: Vec<String> = Vec::new();
            paths.push(p);
            let r = AgentRules { agent: a.clone(), paths };
            proof {
                lemma_rules_view_push(v@, r);
                assert(r@.1 =~= seq![p@]);
            }
            v.push(r);
        },
    }
}

/// Whether one of `rules` is a prefix of `path`.
fn any_prefix_exec(rules: &Vec<String>, path: &Vec<char>) -> (r: bool)
    ensures
        r == any_prefix(rules@.map_values(|p: String| p@), path@),
{
    let ghost rs = rules@.map_values(|p: String| p@);
    let mut k: usize = 0;
    while k < rules.len()
        invariant
            k <= rules@.len(),
            rs == rules@.map_values(|p: String| p@),
            forall|j: int| 0 <= j < k ==> !has_prefix(path@, rs[j]),
        decreases rules@.len() - k,
    {
        let p = chars_of(rules[k].as_str());
        if starts_with(path, &p) {
            assert(has_prefix(path@, rs[k as int]));
            return true;
        }
        k = k + 1;
    }
    false
}

fn rules_for_exec(v: &Vec<AgentRules>, a: &String, path: &Vec<char>) -> (r: bool)
    ensures
        r == any_prefix(rules_for(rules_view(v@), a@), path@),
{
    match find_agent(v, a) {
        Some(i) => {
            proof {
                lemma_first_entry_unique(rules_view(v@), a@, i as int);
            }
            any_prefix_exec(&v[i].paths, path)
        },
        None => false,
    }
}

fn next_colon_exec(s: &Vec<char>, start: usize) -> (r: usize)
    requires
        start <= s@.len(),
    ensures
        r == next_colon(s@, start as int),
        start <= r <= s@.len(),
{
    let mut j: usize = start;
    while j < s.len() && s[j] != ':'
        invariant
            start <= j <= s@.len(),
            next_colon(s@, start as int) == next_colon(s@, j as int),
        decreases s@.len() - j,
    {
        j = j + 1;
    }
    j
}

fn line_end_exec(s: &Vec<char>, start: usize) -> (r: usize)
    requires
        start <= s@.len(),
    ensures
        r == line_end(s@, start as int),
        start <= r <= s@.len(),
{
    let mut j: usize = start;
    while j < s.len() && s[j] != '\n'
        invariant
            start <= j <= s@.len(),
            line_end(s@, start as int) == line_end(s@, j as int),
        decreases s@.len() - j,
    {
        j = j + 1;
    }
    j
}

/// The value of the field of `line` that starts at `start`, where `line` is
/// `text[at..]` up to its length.
fn field_string(text: &str, at: usize, line: &Vec<char>, start: usize) -> (r: String)
    requires
        start <= line@.len(),
        at + line@.len() <= text@.len() <= usize::MAX,
        line@ == text@.subrange(at as int, at + line@.len()),
    ensures
        r@ == field(line@, start as int),
{
    let c = next_colon_exec(line, start);
    let (a, b) = trim_bounds(line, start, c);
    let r = substring(text, at + a, at + b);
    assert(r@ =~= line@.subrange(a as int, b as int));
    r
}

impl RobotsTxt {
    /// Reads the rules of a robots file, line by line: `User-agent:` makes
    /// its value the current agent and gives it an (empty) entry in both
    /// lists; `Allow:` and `Disallow:` add their value to the current
    /// agent's list (the agent is `*` until the first `User-agent:`); other
    /// lines are ignored.
    pub fn parse(text: &str) -> (r: RobotsTxt)
        ensures
            r@.0 == robots_of(text@).0,
            r@.1 == robots_of(text@).1,
    {
        let s = chars_of(text);
        let ua_tok = chars_of("User-agent:");
        let allow_tok = chars_of("Allow:");
        let dis_tok = chars_of("Disallow:");
        let mut allow: Vec<AgentRules> = Vec::new();
        let mut disallow: Vec<AgentRules> = Vec::new();
        let mut current = String::from_str("*");
        let ghost init: ParseState = (seq![], seq![], "*"@);
        assert(rules_view(allow@) =~= Seq::<(Seq<char>, Seq<Seq<char>>)>::empty());
        assert(rules_view(disallow@) =~= Seq::<(Seq<char>, Seq<Seq<char>>)>::empty());
        let mut i: usize = 0;
        while i < s.len()
            invariant
                s@ == text@,
                i <= s@.len(),
                ua_tok@ == "User-agent:"@,
                allow_tok@ == "Allow:"@,
                dis_tok@ == "Disallow:"@,
                parse_from(s@, 0, init) == parse_from(
                    s@,
                    i as int,
                    (rules_view(allow@), rules_view(disallow@), current@),
                ),
            decreases s@.len() - i,
        {
            let e = line_end_exec(&s, i);
            let hi = if e < s.len() && e > i && s[e - 1] == '\r' {
                e - 1
            } else {
                e
            };
            let line = slice_chars(&s, i, hi);
            assert(line@ == line_at(s@, i as int));
            assert(line@ == text@.subrange(i as int, i + line@.len()));
            if starts_with(&line, &ua_tok) {
                let ua = field_string(text, i, &line, ua_tok.len());
                ensure_agent_exec(&mut allow, &ua);
                ensure_agent_exec(&mut disallow, &ua);
                current = ua;
            } else if starts_with(&line, &allow_tok) {
                let p = field_string(text, i, &line, allow_tok.len());
                add_rule_exec(&mut allow, &current, p);
            } else if starts_with(&line, &dis_tok) {
                let p = field_string(text, i, &line, dis_tok.len());
                add_rule_exec(&mut disallow, &current, p);
            }
            if e >= s.len() - 1 {
                i = s.len();
            } else {
                i = e + 1;
            }
        }
        RobotsTxt { allow_rules: allow, disallow_rules: disallow }
    }

    /// No rules at all: every path is allowed.
    pub fn empty() -> (r: RobotsTxt)
        ensures
            r@.0 == Seq::<(Seq<char>, Seq<Seq<char>>)>::empty(),
            r@.1 == Seq::<(Seq<char>, Seq<Seq<char>>)>::empty(),
    {
        let r = RobotsTxt { allow_rules: Vec::new(), disallow_rules: Vec::new() };
        assert(r@.0 =~= Seq::<(Seq<char>, Seq<Seq<char>>)>::empty());
        assert(r@.1 =~= Seq::<(Seq<char>, Seq<Seq<char>>)>::empty());
        r
    }

    /// The rules for a robots fetch that answered `status` with `body`: none
    /// at all for 404 (not found), else the rules read from the body.
    pub fn from_response(status: u16, body: &str) -> (r: RobotsTxt)
        ensures
            status == 404 ==> r@.0.len() == 0 && r@.1.len() == 0,
            status != 404 ==> r@.0 == robots_of(body@).0 && r@.1 == robots_of(body@).1,
    {
        if status == 404 {
            RobotsTxt::empty()
        } else {
            RobotsTxt::parse(body)
        }
    }

    /// Whether `user_agent` may fetch `path`: true if an allow rule for the
    /// agent is a prefix of the path, else false if a disallow rule is, else
    /// true.
    pub fn is_allowed(&self, user_agent: &str, path: &str) -> (r: bool)
        ensures
            r == allows(self@.0, self@.1, user_agent@, path@),
    {
        let agent = String::from_str(user_agent);
        let p = chars_of(path);
        if rules_for_exec(&self.allow_rules, &agent, &p) {
            return true;
        }
        !rules_for_exec(&self.disallow_rules, &agent, &p)
    }
}

/// Without rules (as when a site has no robots file) every path is allowed
/// to every agent.
pub proof fn lemma_no_rules_allow_all(agent: Seq<char>, path: Seq<char>)
    ensures
        allows(seq![], seq![], agent, path),
{
    let e: RulesView = seq![];
    assert(!has_agent(e, agent));
}

} // verus!
