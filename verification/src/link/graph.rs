//! The graph of links between named blocks, and the search for a circle in it.

use vstd::prelude::*;
use vstd::set_lib::lemma_len_subset;
use crate::text::{
    position, lemma_push_no_duplicates, views, string_views, lemma_views_push, lemma_views_take,
    lemma_string_views_push,
};
use crate::link::LinkError;

verus! {

/// Which block links to which, as the contracts see it: the names in the
/// order in which they were first defined, and beside each name the names
/// that its blocks link to.
pub struct Graph {
    pub names: Seq<Seq<char>>,
    pub links: Seq<Seq<Seq<char>>>,
}

impl Graph {
    /// Every name has its list of links, and no name stands twice.
    pub open spec fn wf(self) -> bool {
        &&& self.names.len() == self.links.len()
        &&& self.names.no_duplicates()
    }

    /// Whether a block of that name is defined.
    pub open spec fn has(self, name: Seq<char>) -> bool {
        self.names.contains(name)
    }

    /// The names that the blocks called `name` link to.
    pub open spec fn links_of(self, name: Seq<char>) -> Seq<Seq<char>> {
        self.links[self.names.index_of(name)]
    }

    /// Whether a block called `from` links to `to`.
    pub open spec fn edge(self, from: Seq<char>, to: Seq<char>) -> bool {
        self.has(from) && self.links_of(from).contains(to)
    }

    /// Every link leads to a defined name.
    pub open spec fn closed(self) -> bool {
        forall|i: int, j: int|
            0 <= i < self.links.len() && 0 <= j < self.links[i].len() ==> self.has(
                #[trigger] self.links[i][j],
            )
    }

    /// Whether `path` names defined blocks, each of which links to the next.
    pub open spec fn is_path(self, path: Seq<Seq<char>>) -> bool {
        &&& forall|i: int| 0 <= i < path.len() ==> self.has(#[trigger] path[i])
        &&& forall|i: int| 0 <= i < path.len() - 1 ==> self.edge(#[trigger] path[i], path[i + 1])
    }

    /// No chain of links comes back to a block that it has passed.
    pub open spec fn acyclic(self) -> bool {
        forall|path: Seq<Seq<char>>| #[trigger] self.is_path(path) ==> path.no_duplicates()
    }

    /// Whether `path` is a chain of links that ends on a name it has passed
    /// before, and on no other.
    pub open spec fn is_cycle(self, path: Seq<Seq<char>>) -> bool {
        &&& path.len() >= 2
        &&& self.is_path(path)
        &&& path.drop_last().no_duplicates()
        &&& path.drop_last().contains(path.last())
    }

    /// The graph once a block called `name` that links to `links` is added:
    /// a new name comes last, a known name gets the links behind its own.
    pub open spec fn with_links(self, name: Seq<char>, links: Seq<Seq<char>>) -> Graph {
        if self.has(name) {
            let at = self.names.index_of(name);
            Graph { names: self.names, links: self.links.update(at, self.links[at] + links) }
        } else {
            Graph { names: self.names.push(name), links: self.links.push(links) }
        }
    }
}

/// Adding a block keeps a graph well formed.
pub proof fn lemma_with_links_wf(g: Graph, name: Seq<char>, links: Seq<Seq<char>>)
    requires
        g.wf(),
    ensures
        g.with_links(name, links).wf(),
{
    if !g.has(name) {
        let names = g.names.push(name);
        assert forall|i: int, j: int| 0 <= i < names.len() && 0 <= j < names.len() && i != j implies names[i] != names[j] by {
            if i == g.names.len() {
                assert(g.names[j] == names[j]);
            } else if j == g.names.len() {
                assert(g.names[i] == names[i]);
            }
        }
    }
}

/// A chain without repetition is no longer than the list of names.
pub proof fn lemma_simple_path_is_short(g: Graph, path: Seq<Seq<char>>)
    requires
        g.wf(),
        path.no_duplicates(),
        forall|i: int| 0 <= i < path.len() ==> g.has(#[trigger] path[i]),
    ensures
        path.len() <= g.names.len(),
{
    path.unique_seq_to_set();
    g.names.unique_seq_to_set();
    assert(path.to_set().subset_of(g.names.to_set())) by {
        assert forall|x: Seq<char>| path.to_set().contains(x) implies g.names.to_set().contains(x) by {
            let i = choose|i: int| 0 <= i < path.len() && path[i] == x;
            assert(g.has(path[i]));
        }
    }
    lemma_len_subset(path.to_set(), g.names.to_set());
}

/// Whether `path` goes on beyond `stem`.
pub open spec fn extends(path: Seq<Seq<char>>, stem: Seq<Seq<char>>) -> bool {
    path.len() > stem.len() && path.take(stem.len() as int) == stem
}

/// Whether `next` may follow `stem` on a chain: any defined name may start
/// one, and after that only what the last name links to.
pub open spec fn may_follow(g: Graph, stem: Seq<Seq<char>>, next: Seq<char>) -> bool {
    if stem.len() == 0 {
        g.has(next)
    } else {
        g.edge(stem.last(), next)
    }
}

/// No chain that goes on beyond `stem` repeats a name.
pub open spec fn simple_beyond(g: Graph, stem: Seq<Seq<char>>) -> bool {
    forall|path: Seq<Seq<char>>| #[trigger]
        g.is_path(path) && extends(path, stem) ==> path.no_duplicates()
}

/// No chain that goes on beyond `stem` with one of `tried` repeats a name.
pub open spec fn simple_through(g: Graph, stem: Seq<Seq<char>>, tried: Seq<Seq<char>>) -> bool {
    forall|path: Seq<Seq<char>>| #[trigger]
        g.is_path(path) && extends(path, stem) && tried.contains(path[stem.len() as int])
            ==> path.no_duplicates()
}

/// The first chain that comes back onto itself, as it is found by following
/// the links of `links` from position `from` on, one after another and each
/// as deep as it goes, below the chain `stack`. The chain is given with the
/// repeated name at its end. `room` is how many names the chain may still
/// take up.
pub open spec fn search(
    graph: Graph,
    stack: Seq<Seq<char>>,
    links: Seq<Seq<char>>,
    from: nat,
    room: nat,
) -> Option<Seq<Seq<char>>>
    decreases room, links.len() - from,
{
    if from >= links.len() {
        None
    } else {
        let link = links[from as int];
        if stack.contains(link) {
            Some(stack.push(link))
        } else if room == 0 {
            None
        } else {
            match search(graph, stack.push(link), graph.links_of(link), 0, (room - 1) as nat) {
                Some(path) => Some(path),
                None => search(graph, stack, links, from + 1, room),
            }
        }
    }
}

/// The first circle of `graph`: every name is taken as a start, in the
/// order of first definition, and the links of each block are followed in
/// the order in which they stand.
pub open spec fn first_cycle(graph: Graph) -> Option<Seq<Seq<char>>> {
    search(graph, Seq::empty(), graph.names, 0, graph.names.len())
}

/// The links between the blocks of one document.
pub struct LinkMap<'a> {
    names: Vec<&'a str>,
    links: Vec<Vec<&'a str>>,
}

impl<'a> View for LinkMap<'a> {
    type V = Graph;

    closed spec fn view(&self) -> Graph {
        Graph {
            names: views(self.names@),
            links: Seq::new(self.links.len() as nat, |i: int| views(self.links[i]@)),
        }
    }
}

impl<'a> LinkMap<'a> {
    /// A map without any block.
    pub fn new() -> (map: LinkMap<'a>)
        ensures
            map@.wf(),
            map@.names.len() == 0,
    {
        let map = LinkMap { names: Vec::new(), links: Vec::new() };
        proof {
            assert(map@.names =~= Seq::<Seq<char>>::empty());
        }
        map
    }

    /// How many names are defined.
    pub fn len(&self) -> (n: usize)
        requires
            self@.wf(),
        ensures
            n == self@.names.len(),
    {
        self.names.len()
    }

    /// The name at `index`, in the order of first definition.
    pub fn key_at(&self, index: usize) -> (name: &'a str)
        requires
            self@.wf(),
            index < self@.names.len(),
        ensures
            name@ == self@.names[index as int],
    {
        self.names[index]
    }

    /// The names in the order of first definition.
    pub fn keys(&self) -> (names: &Vec<&'a str>)
        requires
            self@.wf(),
        ensures
            views(names@) == self@.names,
    {
        &self.names
    }

    /// Whether a block of that name is defined.
    pub fn contains_key(&self, name: &str) -> (b: bool)
        requires
            self@.wf(),
        ensures
            b == self@.has(name@),
    {
        let at = position(&self.names, name);
        proof {
            if let Some(i) = at {
                assert(self@.names[i as int] == name@);
            }
        }
        at.is_some()
    }

    /// What the blocks called `name` link to, if there is such a block.
    pub fn get(&self, name: &str) -> (links: Option<&Vec<&'a str>>)
        requires
            self@.wf(),
        ensures
            links is Some <==> self@.has(name@),
            links is Some ==> views(links.unwrap()@) == self@.links_of(name@),
    {
        match position(&self.names, name) {
            Some(i) => {
                proof {
                    let g = self@;
                    let at = g.names.index_of(name@);
                    assert(g.names[i as int] == name@);
                    assert(g.names.contains(name@));
                    assert(at == i);
                }
                Some(&self.links[i])
            },
            None => None,
        }
    }

    /// Adds a block called `name` that links to `links`.
    pub fn record(&mut self, name: &'a str, links: Vec<&'a str>)
        requires
            old(self)@.wf(),
        ensures
            final(self)@ == old(self)@.with_links(name@, views(links@)),
            final(self)@.wf(),
    {
        let ghost before = self@;
        proof {
            lemma_with_links_wf(before, name@, views(links@));
        }
        match position(&self.names, name) {
            Some(i) => {
                proof {
                    assert(before.names[i as int] == name@);
                    assert(before.names.index_of(name@) == i);
                }
                let mut links = links;
                let ghost added = views(links@);
                let record = &mut self.links[i];
                record.append(&mut links);
                proof {
                    assert(views(self.links[i as int]@) =~= before.links[i as int] + added);
                    assert(self@.links =~= before.with_links(name@, added).links);
                }
            },
            None => {
                self.names.push(name);
                self.links.push(links);
                proof {
                    assert(self@.names =~= before.names.push(name@));
                    assert(self@.links =~= before.links.push(views(links@)));
                }
            },
        }
    }
}

/// A chain may be taken one step further along a link.
pub proof fn lemma_path_push(g: Graph, stem: Seq<Seq<char>>, next: Seq<char>)
    requires
        g.wf(),
        g.closed(),
        g.is_path(stem),
        may_follow(g, stem, next),
    ensures
        g.is_path(stem.push(next)),
{
    let path = stem.push(next);
    if stem.len() > 0 {
        let at = g.names.index_of(stem.last());
        let j = choose|j: int| 0 <= j < g.links[at].len() && g.links[at][j] == next;
        assert(g.has(g.links[at][j]));
    }
    assert forall|i: int| 0 <= i < path.len() implies g.has(#[trigger] path[i]) by {
        if i < stem.len() {
            assert(path[i] == stem[i]);
        }
    }
    assert forall|i: int| 0 <= i < path.len() - 1 implies g.edge(#[trigger] path[i], path[i + 1]) by {
        if i < stem.len() - 1 {
            assert(path[i] == stem[i]);
            assert(path[i + 1] == stem[i + 1]);
        }
    }
}

/// Once every chain through `next` is known to be free of repetition, `next`
/// counts among the continuations that were tried.
pub proof fn lemma_simple_step(
    g: Graph,
    stem: Seq<Seq<char>>,
    tried: Seq<Seq<char>>,
    next: Seq<char>,
)
    requires
        simple_through(g, stem, tried),
        simple_beyond(g, stem.push(next)),
        stem.push(next).no_duplicates(),
    ensures
        simple_through(g, stem, tried.push(next)),
{
    let k = stem.len() as int;
    assert forall|path: Seq<Seq<char>>| #[trigger]
        g.is_path(path) && extends(path, stem) && tried.push(next).contains(
            path[k],
        ) implies path.no_duplicates() by {
        if tried.contains(path[k]) {
        } else {
            let i = choose|i: int| 0 <= i < tried.push(next).len() && tried.push(next)[i] == path[k];
            if i < tried.len() {
                assert(tried[i] == path[k]);
            }
            assert(path[k] == next);
            assert(path.take(k + 1) =~= stem.push(next)) by {
                assert(path.take(k) == stem);
                assert forall|i: int| 0 <= i < k + 1 implies path.take(k + 1)[i] == stem.push(
                    next,
                )[i] by {
                    if i < k {
                        assert(path.take(k)[i] == path[i]);
                    }
                }
            }
            if path.len() > k + 1 {
                assert(extends(path, stem.push(next)));
            } else {
                assert(path =~= path.take(k + 1));
            }
        }
    }
}

/// Once every continuation that may follow `stem` has been tried, no chain
/// beyond `stem` repeats a name.
pub proof fn lemma_simple_all(g: Graph, stem: Seq<Seq<char>>, tried: Seq<Seq<char>>)
    requires
        simple_through(g, stem, tried),
        forall|x: Seq<char>| #[trigger] may_follow(g, stem, x) ==> tried.contains(x),
    ensures
        simple_beyond(g, stem),
{
    let k = stem.len() as int;
    assert forall|path: Seq<Seq<char>>| #[trigger]
        g.is_path(path) && extends(path, stem) implies path.no_duplicates() by {
        if k == 0 {
            assert(g.has(path[0]));
        } else {
            assert(g.edge(path[k - 1], path[k - 1 + 1]));
            assert(path.take(k)[k - 1] == path[k - 1]);
        }
        assert(may_follow(g, stem, path[k]));
    }
}

/// A graph that holds a cycle is not acyclic.
pub proof fn lemma_cycle_refutes_acyclic(g: Graph, path: Seq<Seq<char>>)
    requires
        g.is_cycle(path),
    ensures
        !g.acyclic(),
{
    let front = path.drop_last();
    let i = choose|i: int| 0 <= i < front.len() && front[i] == path.last();
    assert(path[i] == path[path.len() - 1]);
    assert(!path.no_duplicates());
}

/// The names of `stack` and then `link`, as owned strings.
fn cycle_path(stack: &Vec<&str>, link: &str) -> (path: Vec<String>)
    ensures
        string_views(path@) == views(stack@).push(link@),
{
    let mut path: Vec<String> = Vec::new();
    let mut i: usize = 0;
    while i < stack.len()
        invariant
            i <= stack.len(),
            string_views(path@) == views(stack@).take(i as int),
        decreases stack.len() - i,
    {
        let ghost before = path@;
        let name = stack[i].to_owned();
        proof {
            lemma_string_views_push(before, name);
            assert(views(stack@).take(i + 1) =~= views(stack@).take(i as int).push(stack@[i as int]@));
        }
        path.push(name);
        i += 1;
    }
    let ghost before = path@;
    let name = link.to_owned();
    proof {
        lemma_string_views_push(before, name);
        assert(views(stack@).take(stack.len() as int) =~= views(stack@));
    }
    path.push(name);
    path
}

/// Follows every one of `links` from the chain on `stack`, as deep as the
/// links go, and stops at the first link that leads back onto the chain.
///
/// Nothing is remembered between two chains: a block that several chains
/// reach is walked once for each of them.
pub fn check_recursion<'a>(
    map: &LinkMap<'a>,
    links: &Vec<&'a str>,
    stack: &mut Vec<&'a str>,
) -> (r: Result<(), LinkError>)
    requires
        map@.wf(),
        map@.closed(),
        map@.is_path(views(old(stack)@)),
        views(old(stack)@).no_duplicates(),
        forall|j: int|
            0 <= j < links.len() ==> may_follow(
                map@,
                views(old(stack)@),
                #[trigger] views(links@)[j],
            ),
        forall|x: Seq<char>| #[trigger]
            may_follow(map@, views(old(stack)@), x) ==> views(links@).contains(x),
    ensures
        match r {
            Ok(_) => {
                &&& views(final(stack)@) == views(old(stack)@)
                &&& simple_beyond(map@, views(old(stack)@))
                &&& search(
                    map@,
                    views(old(stack)@),
                    views(links@),
                    0,
                    (map@.names.len() - old(stack).len()) as nat,
                ) is None
            },
            Err(e) => {
                &&& e is CyclicReference
                &&& map@.is_cycle(string_views(e->CyclicReference_0@))
                &&& search(
                    map@,
                    views(old(stack)@),
                    views(links@),
                    0,
                    (map@.names.len() - old(stack).len()) as nat,
                ) == Some(string_views(e->CyclicReference_0@))
            },
        },
    decreases map@.names.len() - old(stack).len(),
{
    let ghost g = map@;
    let ghost stem = views(stack@);
    proof {
        lemma_simple_path_is_short(g, stem);
    }
    let ghost room = (g.names.len() - stem.len()) as nat;
    let mut j: usize = 0;
    while j < links.len()
        invariant
            j <= links.len(),
            room == g.names.len() - stem.len(),
            search(g, stem, views(links@), 0, room) == search(g, stem, views(links@), j as nat, room),
            g == map@,
            g.wf(),
            g.closed(),
            stem == views(old(stack)@),
            views(stack@) == stem,
            g.is_path(stem),
            stem.no_duplicates(),
            forall|j: int|
                0 <= j < links.len() ==> may_follow(g, stem, #[trigger] views(links@)[j]),
            simple_through(g, stem, views(links@).take(j as int)),
        decreases links.len() - j,
    {
        let link = links[j];
        proof {
            assert(views(links@)[j as int] == link@);
            lemma_path_push(g, stem, link@);
            assert(views(links@).take(j + 1) =~= views(links@).take(j as int).push(link@));
        }
        match position(stack, link) {
            Some(at) => {
                let path = cycle_path(stack, link);
                proof {
                    let p = string_views(path@);
                    assert(stem[at as int] == link@);
                    assert(p.drop_last() =~= stem);
                }
                return Err(LinkError::CyclicReference(path));
            },
            None => {
                proof {
                    lemma_push_no_duplicates(stem, link@);
                    lemma_simple_path_is_short(g, stem.push(link@));
                }
                let ghost below = stack@;
                proof {
                    lemma_views_push(below, link);
                }
                stack.push(link);
                let next = map.get(link);
                proof {
                    assert(g.has(stem.push(link@)[stem.len() as int]));
                }
                let next = next.unwrap();
                proof {
                    assert(room >= 1);
                    assert(views(stack@).len() == stem.len() + 1);
                    assert forall|i: int| 0 <= i < next.len() implies may_follow(
                        g,
                        stem.push(link@),
                        #[trigger] views(next@)[i],
                    ) by {
                        assert(stem.push(link@).last() == link@);
                    }
                    assert forall|x: Seq<char>| #[trigger]
                        may_follow(g, stem.push(link@), x) implies views(next@).contains(x) by {
                        assert(stem.push(link@).last() == link@);
                    }
                }
                let found = check_recursion(map, next, stack);
                match found {
                    Err(e) => {
                        return Err(e);
                    },
                    Ok(_) => {},
                }
                let ghost above = stack@;
                stack.pop();
                proof {
                    lemma_views_take(above, above.len() - 1);
                    assert(stack@ =~= above.take(above.len() - 1));
                    assert(stem.push(link@).take(above.len() - 1) =~= stem);
                    lemma_simple_step(g, stem, views(links@).take(j as int), link@);
                }
            },
        }
        j += 1;
    }
    proof {
        assert(views(links@).take(links.len() as int) =~= views(links@));
        lemma_simple_all(g, stem, views(links@));
    }
    Ok(())
}

/// Looks for a chain of links that comes back to a block it has passed.
/// Every defined name is taken as a start, in the order of first definition.
pub fn find_cycle<'a>(map: &LinkMap<'a>) -> (r: Result<(), LinkError>)
    requires
        map@.wf(),
        map@.closed(),
    ensures
        r is Ok <==> map@.acyclic(),
        r is Ok <==> first_cycle(map@) is None,
        r is Err ==> {
            &&& r->Err_0 is CyclicReference
            &&& map@.is_cycle(string_views(r->Err_0->CyclicReference_0@))
            &&& first_cycle(map@) == Some(string_views(r->Err_0->CyclicReference_0@))
        },
{
    let mut stack: Vec<&'a str> = Vec::new();
    let ghost g = map@;
    let keys = map.keys();
    proof {
        assert(views(stack@) =~= Seq::<Seq<char>>::empty());
        assert forall|j: int| 0 <= j < keys.len() implies may_follow(
            g,
            views(stack@),
            #[trigger] views(keys@)[j],
        ) by {
            assert(g.names[j] == views(keys@)[j]);
        }
    }
    let r = check_recursion(map, keys, &mut stack);
    proof {
        if r is Ok {
            assert forall|path: Seq<Seq<char>>| #[trigger] g.is_path(path) implies path.no_duplicates() by {
                if path.len() > 0 {
                    assert(path.take(0) =~= Seq::<Seq<char>>::empty());
                    assert(extends(path, Seq::<Seq<char>>::empty()));
                }
            }
        } else {
            lemma_cycle_refutes_acyclic(g, string_views(r->Err_0->CyclicReference_0@));
        }
    }
    r
}

} // verus!
