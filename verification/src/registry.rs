//! The tool registry: tools kept by name, each with the categories it
//! belongs to.

use vstd::prelude::*;
use crate::text::{str_eq, strings_view};
use crate::tool::{ToolError, ToolErrorView};

verus! {

/// A registered tool with what the registry reads of it: its name and its
/// categories.
pub struct ToolEntry<T> {
    pub name: String,
    pub categories: Vec<String>,
    pub tool: T,
}

/// An entry seen as plain values: name, categories, tool.
pub open spec fn entry_view<T>(e: ToolEntry<T>) -> (Seq<char>, Seq<Seq<char>>, T) {
    (e.name@, strings_view(e.categories@), e.tool)
}

/// No name occurs twice.
pub open spec fn distinct_names<T>(s: Seq<(Seq<char>, Seq<Seq<char>>, T)>) -> bool {
    forall|i: int, j: int| 0 <= i < j < s.len() ==> s[i].0 != s[j].0
}

/// Where the tool called `name` stands, if it is registered.
pub open spec fn position_of<T>(s: Seq<(Seq<char>, Seq<Seq<char>>, T)>, name: Seq<char>) -> Option<int> {
    if exists|i: int| 0 <= i < s.len() && s[i].0 == name {
        Some(choose|i: int| 0 <= i < s.len() && s[i].0 == name)
    } else {
        None
    }
}

/// Whether a tool with categories `cats` belongs to one of `wanted`.
pub open spec fn shares_category(cats: Seq<Seq<char>>, wanted: Seq<Seq<char>>) -> bool {
    exists|i: int, j: int| 0 <= i < wanted.len() && 0 <= j < cats.len() && wanted[i] == cats[j]
}

/// The tools of `s` that belong to one of `wanted`, in order.
pub open spec fn tools_in<T>(s: Seq<(Seq<char>, Seq<Seq<char>>, T)>, wanted: Seq<Seq<char>>) -> Seq<T>
    decreases s.len(),
{
    if s.len() == 0 {
        Seq::empty()
    } else {
        tools_in(s.drop_last(), wanted) + if shares_category(s.last().1, wanted) {
            seq![s.last().2]
        } else {
            Seq::empty()
        }
    }
}

/// The entries after registering `tool` under `name`: it replaces the entry
/// of that name in place, or comes last.
pub open spec fn registered<T>(
    s: Seq<(Seq<char>, Seq<Seq<char>>, T)>,
    name: Seq<char>,
    cats: Seq<Seq<char>>,
    tool: T,
) -> Seq<(Seq<char>, Seq<Seq<char>>, T)> {
    match position_of(s, name) {
        Some(i) => s.update(i, (name, cats, tool)),
        None => s.push((name, cats, tool)),
    }
}

proof fn lemma_position_at<T>(s: Seq<(Seq<char>, Seq<Seq<char>>, T)>, i: int, n: Seq<char>)
    requires
        distinct_names(s),
        0 <= i < s.len(),
        s[i].0 == n,
    ensures
        position_of(s, n) == Some(i),
{
    let c = choose|c: int| 0 <= c < s.len() && s[c].0 == n;
    assert(c == i) by {
        if c != i {
            if c < i {
                assert(s[c].0 != s[i].0);
            } else {
                assert(s[i].0 != s[c].0);
            }
        }
    }
}

/// Registering a tool makes it the one found under its name, and leaves the
/// tool found under every other name as it was.
pub proof fn law_register_then_get<T>(
    s: Seq<(Seq<char>, Seq<Seq<char>>, T)>,
    name: Seq<char>,
    cats: Seq<Seq<char>>,
    tool: T,
    other: Seq<char>,
)
    requires
        distinct_names(s),
    ensures
        distinct_names(registered(s, name, cats, tool)),
        position_of(registered(s, name, cats, tool), name) matches Some(i) && registered(s, name, cats, tool)[i]
            == (name, cats, tool),
        other != name ==> position_of(registered(s, name, cats, tool), other) == position_of(s, other),
        other != name ==> (position_of(s, other) matches Some(j) ==> registered(s, name, cats, tool)[j] == s[j]),
{
    let t = registered(s, name, cats, tool);
    let item = (name, cats, tool);
    match position_of(s, name) {
        Some(i) => {
            assert(0 <= i < s.len() && s[i].0 == name);
            assert forall|a: int, b: int| 0 <= a < b < t.len() implies t[a].0 != t[b].0 by {
                assert(s[a].0 != s[b].0);
            }
            lemma_position_at(t, i, name);
            if other != name {
                if exists|k: int| 0 <= k < s.len() && s[k].0 == other {
                    let k = choose|k: int| 0 <= k < s.len() && s[k].0 == other;
                    assert(k != i);
                    lemma_position_at(s, k, other);
                    lemma_position_at(t, k, other);
                } else {
                    assert forall|k: int| 0 <= k < t.len() implies t[k].0 != other by {
                        if k != i {
                            assert(!(0 <= k < s.len() && s[k].0 == other));
                        }
                    }
                }
            }
        },
        None => {
            assert forall|k: int| 0 <= k < s.len() implies s[k].0 != name by {}
            assert forall|a: int, b: int| 0 <= a < b < t.len() implies t[a].0 != t[b].0 by {
                if b == s.len() {
                    assert(s[a].0 != name);
                } else {
                    assert(s[a].0 != s[b].0);
                }
            }
            lemma_position_at(t, s.len() as int, name);
            if other != name {
                if exists|k: int| 0 <= k < s.len() && s[k].0 == other {
                    let k = choose|k: int| 0 <= k < s.len() && s[k].0 == other;
                    lemma_position_at(s, k, other);
                    lemma_position_at(t, k, other);
                } else {
                    assert forall|k: int| 0 <= k < t.len() implies t[k].0 != other by {
                        if k < s.len() {
                            assert(!(0 <= k < s.len() && s[k].0 == other));
                        }
                    }
                }
            }
        },
    }
}

/// Tools kept by name: registering a name again replaces the tool.
pub struct ToolRegistry<T> {
    tools: Vec<ToolEntry<T>>,
}

impl<T> ToolRegistry<T> {
    /// The registered tools, in the order their names were first registered.
    pub closed spec fn entries(&self) -> Seq<(Seq<char>, Seq<Seq<char>>, T)> {
        self.tools@.map_values(|e: ToolEntry<T>| entry_view(e))
    }

    /// The registered tools by name.
    pub open spec fn as_map(&self) -> Map<Seq<char>, (Seq<Seq<char>>, T)> {
        Map::new(
            |n: Seq<char>| position_of(self.entries(), n) is Some,
            |n: Seq<char>| {
                let e = self.entries()[position_of(self.entries(), n)->0];
                (e.1, e.2)
            },
        )
    }

    pub open spec fn wf(&self) -> bool {
        distinct_names(self.entries())
    }

    /// An empty registry.
    pub fn new() -> (r: Self)
        ensures
            r.wf(),
            r.entries() == Seq::<(Seq<char>, Seq<Seq<char>>, T)>::empty(),
    {
        let r = ToolRegistry { tools: Vec::new() };
        assert(r.entries() =~= Seq::<(Seq<char>, Seq<Seq<char>>, T)>::empty());
        r
    }

    fn find(&self, name: &str) -> (r: Option<usize>)
        requires
            self.wf(),
        ensures
            r matches Some(i) ==> position_of(self.entries(), name@) == Some(i as int) && i < self.entries().len(),
            r is None ==> position_of(self.entries(), name@) is None,
    {
        let ghost s = self.entries();
        let mut i: usize = 0;
        while i < self.tools.len()
            invariant
                s == self.entries(),
                self.wf(),
                i <= self.tools@.len(),
                forall|k: int| 0 <= k < i ==> s[k].0 != name@,
            decreases self.tools.len() - i,
        {
            if str_eq(self.tools[i].name.as_str(), name) {
                proof {
                    assert(s[i as int].0 == name@);
                    let c = choose|c: int| 0 <= c < s.len() && s[c].0 == name@;
                    assert(c == i) by {
                        if c < i {
                        } else if c > i {
                            assert(s[i as int].0 != s[c].0);
                        }
                    }
                }
                return Some(i);
            }
            i = i + 1;
        }
        None
    }

    /// Registers `tool` under `name` with its categories; a tool already
    /// registered under that name is replaced, keeping its place.
    pub fn register(&mut self, name: String, categories: Vec<String>, tool: T)
        requires
            old(self).wf(),
        ensures
            final(self).wf(),
            final(self).entries() == registered(old(self).entries(), name@, strings_view(categories@), tool),
    {
        let ghost item = (name@, strings_view(categories@), tool);
        let ghost before = self.entries();
        let found = self.find(name.as_str());
        let entry = ToolEntry { name, categories, tool };
        match found {
            Some(i) => {
                self.tools.set(i, entry);
                proof {
                    assert(self.entries() =~= before.update(i as int, item));
                    assert forall|a: int, b: int| 0 <= a < b < self.entries().len() implies self.entries()[a].0
                        != self.entries()[b].0 by {
                        if a != i && b != i {
                            assert(before[a].0 != before[b].0);
                        } else {
                            assert(before[a].0 != before[b].0);
                        }
                    }
                }
            },
            None => {
                self.tools.push(entry);
                proof {
                    assert(self.entries() =~= before.push(item));
                    assert forall|a: int, b: int| 0 <= a < b < self.entries().len() implies self.entries()[a].0
                        != self.entries()[b].0 by {
                        if b == before.len() {
                            assert(!(0 <= a < before.len() && before[a].0 == item.0));
                        } else {
                            assert(before[a].0 != before[b].0);
                        }
                    }
                }
            },
        }
    }

    /// The tool registered under `name`, or `ToolNotFound(name)`.
    pub fn get(&self, name: &str) -> (r: Result<&T, ToolError>)
        requires
            self.wf(),
        ensures
            match position_of(self.entries(), name@) {
                Some(i) => r == Ok::<&T, ToolError>(&self.entries()[i].2),
                None => r matches Err(e) && e@ == ToolErrorView::ToolNotFound(name@),
            },
    {
        match self.find(name) {
            Some(i) => Ok(&self.tools[i].tool),
            None => Err(ToolError::ToolNotFound(String::from_str(name))),
        }
    }

    /// Every registered tool.
    pub fn list(&self) -> (r: Vec<&T>)
        ensures
            r@.len() == self.entries().len(),
            forall|i: int| 0 <= i < r@.len() ==> *r@[i] == self.entries()[i].2,
    {
        let mut out: Vec<&T> = Vec::new();
        let mut i: usize = 0;
        while i < self.tools.len()
            invariant
                i <= self.tools@.len(),
                out@.len() == i,
                forall|k: int| 0 <= k < i ==> *out@[k] == self.entries()[k].2,
            decreases self.tools.len() - i,
        {
            out.push(&self.tools[i].tool);
            i = i + 1;
        }
        out
    }

    /// The names of the registered tools.
    pub fn list_names(&self) -> (r: Vec<&str>)
        ensures
            r@.len() == self.entries().len(),
            forall|i: int| 0 <= i < r@.len() ==> r@[i]@ == self.entries()[i].0,
    {
        let mut out: Vec<&str> = Vec::new();
        let mut i: usize = 0;
        while i < self.tools.len()
            invariant
                i <= self.tools@.len(),
                out@.len() == i,
                forall|k: int| 0 <= k < i ==> out@[k]@ == self.entries()[k].0,
            decreases self.tools.len() - i,
        {
            out.push(self.tools[i].name.as_str());
            i = i + 1;
        }
        out
    }

    /// Whether a tool is registered under `name`.
    pub fn has_tool(&self, name: &str) -> (b: bool)
        requires
            self.wf(),
        ensures
            b == self.as_map().dom().contains(name@),
    {
        self.find(name).is_some()
    }

    /// The tools that belong to at least one of `categories`, in order.
    pub fn tools_for_categories(&self, categories: &[&str]) -> (r: Vec<&T>)
        ensures
            r@.len() == tools_in(self.entries(), categories@.map_values(|c: &str| c@)).len(),
            forall|i: int|
                0 <= i < r@.len() ==> *r@[i] == tools_in(self.entries(), categories@.map_values(|c: &str| c@))[i],
    {
        let ghost wanted = categories@.map_values(|c: &str| c@);
        let ghost s = self.entries();
        let mut out: Vec<&T> = Vec::new();
        let mut i: usize = 0;
        while i < self.tools.len()
            invariant
                i <= self.tools@.len(),
                s == self.entries(),
                wanted == categories@.map_values(|c: &str| c@),
                out@.len() == tools_in(s.take(i as int), wanted).len(),
                forall|k: int| 0 <= k < out@.len() ==> *out@[k] == tools_in(s.take(i as int), wanted)[k],
            decreases self.tools.len() - i,
        {
            let cats = &self.tools[i].categories;
            let mut hit = false;
            let mut a: usize = 0;
            while a < categories.len()
                invariant
                    i < self.tools@.len(),
                    cats == &self.tools@[i as int].categories,
                    s == self.entries(),
                    wanted == categories@.map_values(|c: &str| c@),
                    a <= categories@.len(),
                    hit == (exists|x: int, y: int| 0 <= x < a && 0 <= y < cats@.len() && wanted[x] == strings_view(cats@)[y]),
                decreases categories.len() - a,
            {
                let mut b: usize = 0;
                while b < cats.len()
                    invariant
                        i < self.tools@.len(),
                        cats == &self.tools@[i as int].categories,
                        wanted == categories@.map_values(|c: &str| c@),
                        a < categories@.len(),
                        b <= cats@.len(),
                        hit == ((exists|x: int, y: int|
                            0 <= x < a && 0 <= y < cats@.len() && wanted[x] == strings_view(cats@)[y]) || (exists|y: int|
                            0 <= y < b && wanted[a as int] == strings_view(cats@)[y])),
                    decreases cats.len() - b,
                {
                    let eq = str_eq(categories[a], cats[b].as_str());
                    proof {
                        assert(wanted[a as int] == categories@[a as int]@);
                        assert(strings_view(cats@)[b as int] == cats@[b as int]@);
                    }
                    if eq {
                        hit = true;
                    }
                    b = b + 1;
                }
                proof {
                    let sv = strings_view(cats@);
                    if hit {
                        if exists|x: int, y: int| 0 <= x < a && 0 <= y < cats@.len() && wanted[x] == sv[y] {
                            let (x, y) = choose|x: int, y: int| 0 <= x < a && 0 <= y < cats@.len() && wanted[x] == sv[y];
                            assert(0 <= x < a + 1 && 0 <= y < cats@.len() && wanted[x] == sv[y]);
                        } else {
                            let y = choose|y: int| 0 <= y < cats@.len() && wanted[a as int] == sv[y];
                            assert(0 <= a < a + 1 && 0 <= y < cats@.len() && wanted[a as int] == sv[y]);
                        }
                    } else {
                        assert forall|x: int, y: int| 0 <= x < a + 1 && 0 <= y < cats@.len() implies wanted[x] != sv[y] by {
                            if x < a {
                                assert(!(0 <= x < a && 0 <= y < cats@.len() && wanted[x] == sv[y]));
                            } else {
                                assert(!(0 <= y < cats@.len() && wanted[a as int] == sv[y]));
                            }
                        }
                    }
                }
                a = a + 1;
            }
            proof {
                assert(s[i as int].1 == strings_view(cats@));
                assert(hit == shares_category(s[i as int].1, wanted));
                assert(s.take(i + 1).drop_last() =~= s.take(i as int));
                assert(s.take(i + 1).last() == s[i as int]);
            }
            if hit {
                out.push(&self.tools[i].tool);
            }
            i = i + 1;
        }
        proof {
            assert(s.take(s.len() as int) =~= s);
        }
        out
    }
}

} // verus!
