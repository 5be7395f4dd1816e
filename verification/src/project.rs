//! Projects: one markdown file per project, YAML frontmatter followed by sections for the
//! current focus, blockers, decisions and the work log.
use vstd::prelude::*;
use crate::date::{chrono_parse_ymd, date_text, parse_ymd, push_date, today, Date};
use crate::status::{
    parse_priority, parse_status, priority_name, status_name, Priority, Status,
};
use crate::text::{
    dec, join, lemma_chars_deep_view, lowercase_of, push_chars, push_dec, push_joined, push_str,
    push_string, str_chars, string_from_chars, strip_leading, strip_leading_from, to_lowercase,
};
use crate::yaml::{yaml_scalar, yaml_string};

verus! {

broadcast use vstd::string::group_string_axioms;

// ── Data types ───────────────────────────────────────────────────────

#[derive(Clone, Debug, PartialEq)]
pub struct Blocker {
    pub description: String,
    pub resolved: bool,
    pub since: Option<Date>,
    pub resolved_date: Option<Date>,
    pub person: Option<String>,
}

pub struct BlockerView {
    pub description: Seq<char>,
    pub resolved: bool,
    pub since: Option<Date>,
    pub resolved_date: Option<Date>,
    pub person: Option<Seq<char>>,
}

impl View for Blocker {
    type V = BlockerView;

    open spec fn view(&self) -> BlockerView {
        BlockerView {
            description: self.description@,
            resolved: self.resolved,
            since: self.since,
            resolved_date: self.resolved_date,
            person: match self.person {
                Some(p) => Some(p@),
                None => None,
            },
        }
    }
}

impl Default for Blocker {
    fn default() -> (r: Blocker)
        ensures
            r@.description.len() == 0,
            !r.resolved,
            r.since is None,
            r.resolved_date is None,
            r.person is None,
    {
        Blocker {
            description: string_from_chars(&Vec::new()),
            resolved: false,
            since: None,
            resolved_date: None,
            person: None,
        }
    }
}

#[derive(Clone, Debug, PartialEq)]
pub struct Decision {
    pub date: Date,
    pub choice: String,
    pub alternatives: Vec<String>,
}

pub struct DecisionView {
    pub date: Date,
    pub choice: Seq<char>,
    pub alternatives: Seq<Seq<char>>,
}

impl View for Decision {
    type V = DecisionView;

    open spec fn view(&self) -> DecisionView {
        DecisionView {
            date: self.date,
            choice: self.choice@,
            alternatives: self.alternatives.deep_view(),
        }
    }
}

#[derive(Clone, Debug, PartialEq)]
pub struct LogEntry {
    pub date: Date,
    pub lines: Vec<String>,
}

pub struct LogEntryView {
    pub date: Date,
    pub lines: Seq<Seq<char>>,
}

impl View for LogEntry {
    type V = LogEntryView;

    open spec fn view(&self) -> LogEntryView {
        LogEntryView { date: self.date, lines: self.lines.deep_view() }
    }
}

#[derive(Clone, Debug, PartialEq)]
pub struct Project {
    pub name: String,
    pub slug: String,
    pub status: Status,
    pub priority: Priority,
    pub tags: Vec<String>,
    pub created: Date,
    pub target: Option<Date>,
    pub active_issue: Option<u32>,
    pub current_focus: String,
    pub blockers: Vec<Blocker>,
    pub decisions: Vec<Decision>,
    pub log: Vec<LogEntry>,
}

pub struct ProjectView {
    pub name: Seq<char>,
    pub slug: Seq<char>,
    pub status: Status,
    pub priority: Priority,
    pub tags: Seq<Seq<char>>,
    pub created: Date,
    pub target: Option<Date>,
    pub active_issue: Option<u32>,
    pub current_focus: Seq<char>,
    pub blockers: Seq<BlockerView>,
    pub decisions: Seq<DecisionView>,
    pub log: Seq<LogEntryView>,
}

impl View for Project {
    type V = ProjectView;

    open spec fn view(&self) -> ProjectView {
        ProjectView {
            name: self.name@,
            slug: self.slug@,
            status: self.status,
            priority: self.priority,
            tags: self.tags.deep_view(),
            created: self.created,
            target: self.target,
            active_issue: self.active_issue,
            current_focus: self.current_focus@,
            blockers: self.blockers@.map_values(|b: Blocker| b@),
            decisions: self.decisions@.map_values(|d: Decision| d@),
            log: self.log@.map_values(|e: LogEntry| e@),
        }
    }
}

/// `name.to_lowercase().replace(' ', "-")`: the slug a name gives.
pub open spec fn slug_of(name: Seq<char>) -> Seq<char> {
    lowercase_of(name).map_values(|c: char| if c == ' ' { '-' } else { c })
}

pub(crate) fn slug_from(name: &str) -> (r: String)
    ensures
        r@ == slug_of(name@),
{
    let l = to_lowercase(name);
    let cs = str_chars(l.as_str());
    let mut out: Vec<char> = Vec::new();
    let mut i: usize = 0;
    while i < cs.len()
        invariant
            i <= cs.len(),
            out@ == cs@.subrange(0, i as int).map_values(
                |c: char| if c == ' ' { '-' } else { c },
            ),
        decreases cs.len() - i,
    {
        let c = cs[i];
        out.push(if c == ' ' { '-' } else { c });
        i = i + 1;
        assert(out@ =~= cs@.subrange(0, i as int).map_values(
            |c: char| if c == ' ' { '-' } else { c },
        ));
    }
    assert(cs@.subrange(0, cs@.len() as int) =~= cs@);
    string_from_chars(&out)
}

pub open spec fn new_project(name: Seq<char>, today: Date) -> ProjectView {
    ProjectView {
        name,
        slug: slug_of(name),
        status: Status::Active,
        priority: Priority::Medium,
        tags: Seq::<Seq<char>>::empty(),
        created: today,
        target: None,
        active_issue: None,
        current_focus: Seq::<char>::empty(),
        blockers: Seq::<BlockerView>::empty(),
        decisions: Seq::<DecisionView>::empty(),
        log: Seq::<LogEntryView>::empty(),
    }
}

impl Project {
    /// A new active, medium-priority project created on `today`.
    pub fn new_on(name: &str, today: Date) -> (r: Project)
        ensures
            r@ == new_project(name@, today),
    {
        let nc = str_chars(name);
        let r = Project {
            name: string_from_chars(&nc),
            slug: slug_from(name),
            status: Status::Active,
            priority: Priority::Medium,
            tags: Vec::new(),
            created: today,
            target: None,
            active_issue: None,
            current_focus: string_from_chars(&Vec::new()),
            blockers: Vec::new(),
            decisions: Vec::new(),
            log: Vec::new(),
        };
        assert(r@.tags =~= Seq::<Seq<char>>::empty());
        assert(r@.blockers =~= Seq::<BlockerView>::empty());
        assert(r@.decisions =~= Seq::<DecisionView>::empty());
        assert(r@.log =~= Seq::<LogEntryView>::empty());
        r
    }

    /// A new project created today.
    pub fn new(name: &str) -> (r: Project)
        ensures
            exists|d: Date| d.wf() && r@ == #[trigger] new_project(name@, d),
    {
        let d = today();
        Project::new_on(name, d)
    }
}


// ── Writing ──────────────────────────────────────────────────────────

/// The YAML frontmatter list of tags.
pub open spec fn tag_lines(tags: Seq<Seq<char>>) -> Seq<char>
    decreases tags.len(),
{
    if tags.len() == 0 {
        Seq::empty()
    } else {
        tag_lines(tags.drop_last()) + "- "@ + yaml_scalar(tags.last()) + "\n"@
    }
}

pub open spec fn tags_text(tags: Seq<Seq<char>>) -> Seq<char> {
    if tags.len() == 0 {
        "tags: []\n"@
    } else {
        "tags:\n"@ + tag_lines(tags)
    }
}

/// The frontmatter keys before the tags.
pub open spec fn frontmatter_head(p: ProjectView) -> Seq<char> {
    "---\ncreated: '"@ + date_text(p.created) + "'\nname: "@ + yaml_scalar(p.name)
        + "\npriority: "@ + priority_name(p.priority) + "\nstatus: "@ + status_name(p.status)
        + "\n"@
}

/// The optional keys after the tags, and the closing `---`.
pub open spec fn frontmatter_tail(p: ProjectView) -> Seq<char> {
    (match p.target {
        Some(t) => "target: '"@ + date_text(t) + "'\n"@,
        None => Seq::empty(),
    }) + (match p.active_issue {
        Some(n) => "active_issue: "@ + dec(n as nat) + "\n"@,
        None => Seq::empty(),
    }) + "---"@
}

/// The frontmatter block, keys in alphabetical order, ending with the closing `---`.
pub open spec fn frontmatter_text(p: ProjectView) -> Seq<char> {
    frontmatter_head(p) + tags_text(p.tags) + frontmatter_tail(p)
}

/// What follows a blocker's check box.
pub open spec fn blocker_body(b: BlockerView) -> Seq<char> {
    let base = b.description + match b.person {
        Some(x) => " @"@ + strip_leading(x, '@'),
        None => Seq::empty(),
    };
    if b.resolved {
        "~~"@ + base + "~~"@ + match b.resolved_date {
            Some(d) => " (resolved "@ + date_text(d) + ")"@,
            None => Seq::empty(),
        }
    } else {
        base + match b.since {
            Some(d) => " (since "@ + date_text(d) + ")"@,
            None => Seq::empty(),
        }
    }
}

pub open spec fn blocker_line(b: BlockerView) -> Seq<char> {
    "- ["@ + (if b.resolved {
        "x"@
    } else {
        " "@
    }) + "] "@ + blocker_body(b)
}

pub open spec fn blocker_lines(bs: Seq<BlockerView>) -> Seq<Seq<char>> {
    bs.map_values(|b: BlockerView| blocker_line(b))
}

pub open spec fn decision_lines(d: DecisionView) -> Seq<Seq<char>> {
    seq!["- **"@ + date_text(d.date) + ":** "@ + d.choice] + if d.alternatives.len() > 0 {
        seq!["  - Alternatives: "@ + join(d.alternatives, ", "@)]
    } else {
        Seq::<Seq<char>>::empty()
    }
}

pub open spec fn decisions_lines(ds: Seq<DecisionView>) -> Seq<Seq<char>>
    decreases ds.len(),
{
    if ds.len() == 0 {
        Seq::empty()
    } else {
        decisions_lines(ds.drop_last()) + decision_lines(ds.last())
    }
}

pub open spec fn entry_lines(e: LogEntryView) -> Seq<Seq<char>> {
    seq!["### "@ + date_text(e.date)] + e.lines.map_values(|l: Seq<char>| "- "@ + l)
}

pub open spec fn log_lines(es: Seq<LogEntryView>) -> Seq<Seq<char>>
    decreases es.len(),
{
    if es.len() == 0 {
        Seq::empty()
    } else {
        log_lines(es.drop_last()) + entry_lines(es.last())
    }
}

/// The body sections that a project has something to put in, in their fixed order.
pub open spec fn body_sections(p: ProjectView) -> Seq<Seq<char>> {
    (if p.current_focus.len() > 0 {
        seq!["## Current Focus\n"@ + p.current_focus]
    } else {
        Seq::<Seq<char>>::empty()
    }) + (if p.blockers.len() > 0 {
        seq![join(seq!["## Blockers"@] + blocker_lines(p.blockers), "\n"@)]
    } else {
        Seq::<Seq<char>>::empty()
    }) + (if p.decisions.len() > 0 {
        seq![join(seq!["## Decisions"@] + decisions_lines(p.decisions), "\n"@)]
    } else {
        Seq::<Seq<char>>::empty()
    }) + (if p.log.len() > 0 {
        seq![join(seq!["## Log"@] + log_lines(p.log), "\n"@)]
    } else {
        Seq::<Seq<char>>::empty()
    })
}

/// The markdown form of a project: frontmatter, then the sections separated by blank lines.
pub open spec fn project_text(p: ProjectView) -> Seq<char> {
    frontmatter_text(p) + if body_sections(p).len() > 0 {
        "\n\n"@ + join(body_sections(p), "\n\n"@)
    } else {
        Seq::<char>::empty()
    }
}

fn push_vec_line(ls: &mut Vec<Vec<char>>, l: Vec<char>)
    ensures
        final(ls).deep_view() == old(ls).deep_view().push(l@),
{
    proof {
        lemma_chars_deep_view(&l);
    }
    let ghost before = ls.deep_view();
    ls.push(l);
    assert(ls.deep_view() =~= before.push(l@));
}

fn joined(parts: &Vec<Vec<char>>, sep: &str) -> (r: Vec<char>)
    ensures
        r@ == join(parts.deep_view(), sep@),
{
    let mut out: Vec<char> = Vec::new();
    let sc = str_chars(sep);
    push_joined(&mut out, parts, &sc);
    assert(out@ =~= join(parts.deep_view(), sep@));
    out
}

impl Blocker {
    fn line_out(&self) -> (r: Vec<char>)
        ensures
            r@ == blocker_line(self@),
    {
        let mut base: Vec<char> = Vec::new();
        push_string(&mut base, &self.description);
        if let Some(person) = &self.person {
            push_str(&mut base, " @");
            let pc = str_chars(person.as_str());
            let k = strip_leading_from(&pc, 0, pc.len(), '@');
            let mut i = k;
            let ghost mid = base@;
            while i < pc.len()
                invariant
                    k <= i <= pc.len(),
                    base@ == mid + pc@.subrange(k as int, i as int),
                decreases pc.len() - i,
            {
                base.push(pc[i]);
                i = i + 1;
                assert(base@ =~= mid + pc@.subrange(k as int, i as int));
            }
            assert(pc@.subrange(0, pc@.len() as int) =~= pc@);
        }
        let ghost b = self@;
        assert(base@ =~= b.description + match b.person {
            Some(x) => " @"@ + strip_leading(x, '@'),
            None => Seq::<char>::empty(),
        });
        let mut out: Vec<char> = Vec::new();
        push_str(&mut out, "- [");
        if self.resolved {
            push_str(&mut out, "x");
        } else {
            push_str(&mut out, " ");
        }
        push_str(&mut out, "] ");
        if self.resolved {
            push_str(&mut out, "~~");
            push_chars(&mut out, &base);
            push_str(&mut out, "~~");
            if let Some(rd) = self.resolved_date {
                push_str(&mut out, " (resolved ");
                push_date(&mut out, rd);
                push_str(&mut out, ")");
            }
        } else {
            push_chars(&mut out, &base);
            if let Some(sd) = self.since {
                push_str(&mut out, " (since ");
                push_date(&mut out, sd);
                push_str(&mut out, ")");
            }
        }
        assert(out@ =~= blocker_line(b));
        out
    }
}

impl Decision {
    fn lines_out(&self, ls: &mut Vec<Vec<char>>)
        ensures
            final(ls).deep_view() == old(ls).deep_view() + decision_lines(self@),
    {
        let ghost start = ls.deep_view();
        let mut l: Vec<char> = Vec::new();
        push_str(&mut l, "- **");
        push_date(&mut l, self.date);
        push_str(&mut l, ":** ");
        push_string(&mut l, &self.choice);
        push_vec_line(ls, l);
        if self.alternatives.len() > 0 {
            let mut alts: Vec<Vec<char>> = Vec::new();
            let mut i: usize = 0;
            while i < self.alternatives.len()
                invariant
                    i <= self.alternatives.len(),
                    alts.deep_view() == self.alternatives.deep_view().subrange(0, i as int),
                decreases self.alternatives.len() - i,
            {
                push_vec_line(&mut alts, str_chars(self.alternatives[i].as_str()));
                i = i + 1;
                assert(alts.deep_view() =~= self.alternatives.deep_view().subrange(0, i as int));
            }
            assert(self.alternatives.deep_view().subrange(0, i as int)
                =~= self.alternatives.deep_view());
            let mut l2: Vec<char> = Vec::new();
            push_str(&mut l2, "  - Alternatives: ");
            let j = joined(&alts, ", ");
            push_chars(&mut l2, &j);
            push_vec_line(ls, l2);
        }
        assert(ls.deep_view() =~= start + decision_lines(self@));
    }
}

impl LogEntry {
    fn lines_out(&self, ls: &mut Vec<Vec<char>>)
        ensures
            final(ls).deep_view() == old(ls).deep_view() + entry_lines(self@),
    {
        let ghost start = ls.deep_view();
        let mut l: Vec<char> = Vec::new();
        push_str(&mut l, "### ");
        push_date(&mut l, self.date);
        push_vec_line(ls, l);
        let ghost head = ls.deep_view();
        let ghost body = self.lines.deep_view().map_values(|l: Seq<char>| "- "@ + l);
        let mut i: usize = 0;
        while i < self.lines.len()
            invariant
                i <= self.lines.len(),
                body == self.lines.deep_view().map_values(|l: Seq<char>| "- "@ + l),
                ls.deep_view() == head + body.subrange(0, i as int),
            decreases self.lines.len() - i,
        {
            let mut l: Vec<char> = Vec::new();
            push_str(&mut l, "- ");
            push_string(&mut l, &self.lines[i]);
            push_vec_line(ls, l);
            i = i + 1;
            assert(ls.deep_view() =~= head + body.subrange(0, i as int));
        }
        assert(body.subrange(0, i as int) =~= body);
        assert(ls.deep_view() =~= start + entry_lines(self@));
    }
}

fn push_tags(out: &mut Vec<char>, tags: &Vec<String>)
    ensures
        final(out)@ == old(out)@ + tags_text(tags.deep_view()),
{
    let ghost start = out@;
    let ghost ts = tags.deep_view();
    if tags.len() == 0 {
        push_str(out, "tags: []\n");
    } else {
        push_str(out, "tags:\n");
        let ghost th = out@;
        let mut i: usize = 0;
        while i < tags.len()
            invariant
                i <= tags.len(),
                ts == tags.deep_view(),
                out@ == th + tag_lines(ts.subrange(0, i as int)),
            decreases tags.len() - i,
        {
            assert(ts.subrange(0, i + 1).drop_last() =~= ts.subrange(0, i as int));
            push_str(out, "- ");
            let t = yaml_string(tags[i].as_str());
            push_string(out, &t);
            push_str(out, "\n");
            i = i + 1;
            assert(out@ =~= th + tag_lines(ts.subrange(0, i as int)));
        }
        assert(ts.subrange(0, i as int) =~= ts);
    }
    assert(out@ =~= start + tags_text(ts));
}

impl Project {
    fn frontmatter_head_out(&self, out: &mut Vec<char>)
        ensures
            final(out)@ == old(out)@ + frontmatter_head(self@),
    {
        let ghost start = out@;
        push_str(out, "---\ncreated: '");
        push_date(out, self.created);
        push_str(out, "'\nname: ");
        let n = yaml_string(self.name.as_str());
        push_string(out, &n);
        push_str(out, "\npriority: ");
        let pr = self.priority.to_string();
        push_string(out, &pr);
        push_str(out, "\nstatus: ");
        let st = self.status.to_string();
        push_string(out, &st);
        push_str(out, "\n");
        assert(out@ =~= start + frontmatter_head(self@));
    }

    fn frontmatter_tail_out(&self, out: &mut Vec<char>)
        ensures
            final(out)@ == old(out)@ + frontmatter_tail(self@),
    {
        let ghost start = out@;
        if let Some(t) = self.target {
            push_str(out, "target: '");
            push_date(out, t);
            push_str(out, "'\n");
        }
        let ghost mid = out@;
        assert(mid =~= start + match self@.target {
            Some(t) => "target: '"@ + date_text(t) + "'\n"@,
            None => Seq::<char>::empty(),
        });
        if let Some(a) = self.active_issue {
            push_str(out, "active_issue: ");
            push_dec(out, a as u64);
            push_str(out, "\n");
        }
        push_str(out, "---");
        assert(out@ =~= start + frontmatter_tail(self@));
    }

    fn frontmatter_out(&self, out: &mut Vec<char>)
        ensures
            final(out)@ == old(out)@ + frontmatter_text(self@),
    {
        let ghost start = out@;
        self.frontmatter_head_out(out);
        push_tags(out, &self.tags);
        self.frontmatter_tail_out(out);
        assert(out@ =~= start + frontmatter_text(self@));
    }

    /// Serialize to markdown with YAML frontmatter.
    pub fn to_markdown(&self) -> (r: String)
        ensures
            r@ == project_text(self@),
    {
        let mut out: Vec<char> = Vec::new();
        self.frontmatter_out(&mut out);
        let mut sections: Vec<Vec<char>> = Vec::new();
        let ghost p = self@;
        if self.current_focus.as_str().is_empty() == false {
            let mut l: Vec<char> = Vec::new();
            push_str(&mut l, "## Current Focus\n");
            push_string(&mut l, &self.current_focus);
            push_vec_line(&mut sections, l);
        }
        let ghost s1 = if p.current_focus.len() > 0 {
            seq!["## Current Focus\n"@ + p.current_focus]
        } else {
            Seq::<Seq<char>>::empty()
        };
        assert(sections.deep_view() =~= s1);
        if self.blockers.len() > 0 {
            let mut ls: Vec<Vec<char>> = Vec::new();
            push_vec_line(&mut ls, str_chars("## Blockers"));
            let ghost head = ls.deep_view();
            assert(head =~= seq!["## Blockers"@]);
            let mut i: usize = 0;
            while i < self.blockers.len()
                invariant
                    i <= self.blockers.len(),
                    p == self@,
                    ls.deep_view() == head + blocker_lines(p.blockers).subrange(0, i as int),
                decreases self.blockers.len() - i,
            {
                push_vec_line(&mut ls, self.blockers[i].line_out());
                i = i + 1;
                assert(ls.deep_view() =~= head + blocker_lines(p.blockers).subrange(0, i as int));
            }
            assert(blocker_lines(p.blockers).subrange(0, i as int) =~= blocker_lines(p.blockers));
            push_vec_line(&mut sections, joined(&ls, "\n"));
        }
        let ghost s2 = s1 + if p.blockers.len() > 0 {
            seq![join(seq!["## Blockers"@] + blocker_lines(p.blockers), "\n"@)]
        } else {
            Seq::<Seq<char>>::empty()
        };
        assert(sections.deep_view() =~= s2);
        if self.decisions.len() > 0 {
            let mut ls: Vec<Vec<char>> = Vec::new();
            push_vec_line(&mut ls, str_chars("## Decisions"));
            let ghost head = ls.deep_view();
            assert(head =~= seq!["## Decisions"@]);
            let mut i: usize = 0;
            while i < self.decisions.len()
                invariant
                    i <= self.decisions.len(),
                    p == self@,
                    ls.deep_view() == head + decisions_lines(p.decisions.subrange(0, i as int)),
                decreases self.decisions.len() - i,
            {
                assert(p.decisions.subrange(0, i + 1).drop_last() =~= p.decisions.subrange(
                    0,
                    i as int,
                ));
                self.decisions[i].lines_out(&mut ls);
                i = i + 1;
                assert(ls.deep_view() =~= head + decisions_lines(p.decisions.subrange(0, i as int)));
            }
            assert(p.decisions.subrange(0, i as int) =~= p.decisions);
            push_vec_line(&mut sections, joined(&ls, "\n"));
        }
        let ghost s3 = s2 + if p.decisions.len() > 0 {
            seq![join(seq!["## Decisions"@] + decisions_lines(p.decisions), "\n"@)]
        } else {
            Seq::<Seq<char>>::empty()
        };
        assert(sections.deep_view() =~= s3);
        if self.log.len() > 0 {
            let mut ls: Vec<Vec<char>> = Vec::new();
            push_vec_line(&mut ls, str_chars("## Log"));
            let ghost head = ls.deep_view();
            assert(head =~= seq!["## Log"@]);
            let mut i: usize = 0;
            while i < self.log.len()
                invariant
                    i <= self.log.len(),
                    p == self@,
                    ls.deep_view() == head + log_lines(p.log.subrange(0, i as int)),
                decreases self.log.len() - i,
            {
                assert(p.log.subrange(0, i + 1).drop_last() =~= p.log.subrange(0, i as int));
                self.log[i].lines_out(&mut ls);
                i = i + 1;
                assert(ls.deep_view() =~= head + log_lines(p.log.subrange(0, i as int)));
            }
            assert(p.log.subrange(0, i as int) =~= p.log);
            push_vec_line(&mut sections, joined(&ls, "\n"));
        }
        assert(sections.deep_view() =~= body_sections(p));
        if sections.len() > 0 {
            push_str(&mut out, "\n\n");
            let j = joined(&sections, "\n\n");
            push_chars(&mut out, &j);
        }
        assert(out@ =~= project_text(p));
        string_from_chars(&out)
    }
}

} // verus!
