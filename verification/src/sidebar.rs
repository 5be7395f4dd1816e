//! The plugin sidebar's decisions: which sidebar plugins the configuration enables, which
//! plugin is the notification centre, and where the messages of a tick go.
use vstd::prelude::*;
use crate::text::{str_chars, string_from_chars};

verus! {

broadcast use vstd::string::group_string_axioms;

/// The sidebar plugins there are.
#[derive(Debug, Clone, Copy, PartialEq, Eq, Structural)]
pub enum SidebarKind {
    Pomodoro,
    Notifications,
    Clock,
}

/// The plugin a configured name enables; unknown names enable none.
pub open spec fn kind_of(name: Seq<char>) -> Option<SidebarKind> {
    if name == "pomodoro"@ {
        Some(SidebarKind::Pomodoro)
    } else if name == "notifications"@ {
        Some(SidebarKind::Notifications)
    } else if name == "clock"@ {
        Some(SidebarKind::Clock)
    } else {
        None
    }
}

/// The plugins the enabled names give, in order, unknown names skipped.
pub open spec fn kinds_of(names: Seq<Seq<char>>) -> Seq<SidebarKind>
    decreases names.len(),
{
    if names.len() == 0 {
        Seq::empty()
    } else {
        match kind_of(names.last()) {
            Some(k) => kinds_of(names.drop_last()).push(k),
            None => kinds_of(names.drop_last()),
        }
    }
}

fn same_text(a: &str, b: &str) -> (r: bool)
    ensures
        r == (a@ == b@),
{
    let x = str_chars(a);
    let y = str_chars(b);
    if x.len() != y.len() {
        return false;
    }
    let mut i: usize = 0;
    while i < x.len()
        invariant
            i <= x.len() == y.len(),
            x@ == a@,
            y@ == b@,
            forall|k: int| 0 <= k < i ==> x@[k] == y@[k],
        decreases x.len() - i,
    {
        if x[i] != y[i] {
            return false;
        }
        i = i + 1;
    }
    assert(x@ =~= y@);
    true
}

/// The sidebar plugins that the configuration's list of enabled names asks for, in its
/// order; `pomodoro`, `notifications` and `clock` are known, other names are skipped.
pub fn sidebar_kinds(enabled: &Vec<String>) -> (r: Vec<SidebarKind>)
    ensures
        r@ == kinds_of(enabled.deep_view()),
{
    let mut out: Vec<SidebarKind> = Vec::new();
    let mut i: usize = 0;
    while i < enabled.len()
        invariant
            i <= enabled.len(),
            out@ == kinds_of(enabled.deep_view().subrange(0, i as int)),
        decreases enabled.len() - i,
    {
        let ghost names = enabled.deep_view().subrange(0, i + 1);
        assert(names.drop_last() =~= enabled.deep_view().subrange(0, i as int));
        assert(names.last() == enabled[i as int]@);
        let n = enabled[i].as_str();
        if same_text(n, "pomodoro") {
            out.push(SidebarKind::Pomodoro);
        } else if same_text(n, "notifications") {
            out.push(SidebarKind::Notifications);
        } else if same_text(n, "clock") {
            out.push(SidebarKind::Clock);
        }
        i = i + 1;
    }
    assert(enabled.deep_view().subrange(0, i as int) =~= enabled.deep_view());
    out
}

/// The position of the first plugin named `Notifications`.
pub open spec fn notifications_at(names: Seq<Seq<char>>, i: int) -> Option<int>
    decreases names.len() - i,
{
    if i < 0 || i >= names.len() {
        None
    } else if names[i] == "Notifications"@ {
        Some(i)
    } else {
        notifications_at(names, i + 1)
    }
}

/// The position of the notification centre among the sidebar's plugins (by name).
pub fn notifications_index(names: &Vec<String>) -> (r: Option<usize>)
    ensures
        r == match notifications_at(names.deep_view(), 0) {
            Some(i) => Some(i as usize),
            None => None::<usize>,
        },
        r matches Some(i) ==> i < names.len(),
{
    let mut i: usize = 0;
    while i < names.len()
        invariant
            i <= names.len(),
            notifications_at(names.deep_view(), i as int) == notifications_at(names.deep_view(), 0),
        decreases names.len() - i,
    {
        assert(names.deep_view()[i as int] == names[i as int]@);
        if same_text(names[i].as_str(), "Notifications") {
            return Some(i);
        }
        i = i + 1;
    }
    None
}

/// The messages of a tick from the first `upto` plugins: every timed plugin's messages in
/// order, and those of them that are forwarded to the notification centre (the ones from
/// other plugins).
pub open spec fn tick_messages(
    timed: Seq<bool>,
    msgs: Seq<Seq<Seq<char>>>,
    notif: Option<int>,
    upto: int,
) -> (Seq<Seq<char>>, Seq<Seq<char>>)
    decreases upto,
{
    if upto <= 0 {
        (Seq::empty(), Seq::empty())
    } else {
        let (a, f) = tick_messages(timed, msgs, notif, upto - 1);
        let i = upto - 1;
        if timed[i] {
            (a + msgs[i], if notif == Some(i) {
                f
            } else {
                f + msgs[i]
            })
        } else {
            (a, f)
        }
    }
}

/// Gathers the messages of one tick: the plugins that need a timer were ticked and gave
/// `msgs[i]`; all their messages come back in plugin order, and beside them those to hand
/// to the notification centre (plugin `notif`): every message of another plugin.
pub fn route_tick(timed: &Vec<bool>, msgs: &Vec<Vec<String>>, notif: Option<usize>) -> (r: (
    Vec<String>,
    Vec<String>,
))
    requires
        timed.len() == msgs.len(),
    ensures
        ({
            let (a, f) = tick_messages(
                timed@,
                msgs.deep_view(),
                match notif {
                    Some(i) => Some(i as int),
                    None => None,
                },
                timed.len() as int,
            );
            r.0.deep_view() == a && r.1.deep_view() == f
        }),
{
    let ghost n: Option<int> = match notif {
        Some(i) => Some(i as int),
        None => None,
    };
    let mut all: Vec<String> = Vec::new();
    let mut fwd: Vec<String> = Vec::new();
    let mut i: usize = 0;
    while i < timed.len()
        invariant
            i <= timed.len() == msgs.len(),
            n == match notif {
                Some(k) => Some(k as int),
                None => None::<int>,
            },
            (all.deep_view(), fwd.deep_view()) == tick_messages(timed@, msgs.deep_view(), n, i as int),
        decreases timed.len() - i,
    {
        if timed[i] {
            let forward = match notif {
                Some(k) => k != i,
                None => true,
            };
            let mut j: usize = 0;
            let ghost a0 = all.deep_view();
            let ghost f0 = fwd.deep_view();
            let ghost mi = msgs.deep_view()[i as int];
            assert(mi == msgs[i as int].deep_view());
            while j < msgs[i].len()
                invariant
                    i < timed.len() == msgs.len(),
                    j <= msgs[i as int].len(),
                    mi == msgs[i as int].deep_view(),
                    all.deep_view() == a0 + mi.subrange(0, j as int),
                    fwd.deep_view() == (if forward {
                        f0 + mi.subrange(0, j as int)
                    } else {
                        f0
                    }),
                decreases msgs[i as int].len() - j,
            {
                let m = string_from_chars(&str_chars(msgs[i][j].as_str()));
                let ghost ab = all.deep_view();
                all.push(m);
                assert(all.deep_view() =~= ab.push(mi[j as int]));
                assert(mi.subrange(0, j + 1) =~= mi.subrange(0, j as int).push(mi[j as int]));
                if forward {
                    let m2 = string_from_chars(&str_chars(msgs[i][j].as_str()));
                    let ghost fb = fwd.deep_view();
                    fwd.push(m2);
                    assert(fwd.deep_view() =~= fb.push(mi[j as int]));
                }
                j = j + 1;
            }
            assert(mi.subrange(0, j as int) =~= mi);
        }
        i = i + 1;
    }
    (all, fwd)
}

} // verus!
