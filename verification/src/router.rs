use vstd::prelude::*;

use crate::method::{MethodType, METHOD_COUNT, method_slot, method_at_slot, method_name, lemma_method_slots};
use crate::text::{views, str_views, seq_less, str_less, starts_with_char, lemma_seq_less_irreflexive, lemma_seq_less_total, lemma_seq_less_transitive};

verus! {

/// The routes registered in a route tree: for each pattern (the segments
/// after the root) and method, the handler registered there.
pub type RouteTable<H> = Map<(Seq<Seq<char>>, MethodType), H>;

/// A segment that stands for any value of the request (`":name"`).
pub open spec fn is_param_segment(s: Seq<char>) -> bool {
    s.len() > 0 && s[0] == ':'
}

/// Some registered pattern continues with segment `s`.
pub open spec fn has_branch<H>(t: RouteTable<H>, s: Seq<char>) -> bool {
    exists|k: (Seq<Seq<char>>, MethodType)|
        #![trigger t.contains_key(k)]
        t.contains_key(k) && k.0.len() > 0 && k.0[0] == s
}

/// The routes that continue with segment `s`, with `s` taken off.
pub open spec fn subtable<H>(t: RouteTable<H>, s: Seq<char>) -> RouteTable<H> {
    Map::new(
        |k: (Seq<Seq<char>>, MethodType)| t.contains_key((seq![s] + k.0, k.1)),
        |k: (Seq<Seq<char>>, MethodType)| t[(seq![s] + k.0, k.1)],
    )
}

/// Some parameter segment other than `s` continues a registered pattern.
pub open spec fn other_param_branch<H>(t: RouteTable<H>, s: Seq<char>) -> bool {
    exists|p: Seq<char>| is_param_segment(p) && p != s && #[trigger] has_branch(t, p)
}

/// The route that a request (its segments after the root) reaches for
/// method `m`, with the pattern that it matched: at each depth the segment
/// itself is followed where some pattern continues with it, and otherwise the
/// parameter segment; a request that takes a branch and finds nothing there
/// does not come back to try another.
pub open spec fn route_match<H>(t: RouteTable<H>, m: MethodType, rest: Seq<Seq<char>>) -> Option<
    (Seq<Seq<char>>, H),
>
    decreases rest.len(),
{
    if rest.len() == 0 {
        if t.contains_key((Seq::empty(), m)) {
            Some((Seq::empty(), t[(Seq::empty(), m)]))
        } else {
            None
        }
    } else {
        let s = rest[0];
        let next: Option<Seq<char>> = if has_branch(t, s) {
            Some(s)
        } else if exists|p: Seq<char>| is_param_segment(p) && #[trigger] has_branch(t, p) {
            Some(choose|p: Seq<char>| is_param_segment(p) && #[trigger] has_branch(t, p))
        } else {
            None
        };
        match next {
            Some(seg) => match route_match(subtable(t, seg), m, rest.drop_first()) {
                Some(found) => Some((seq![seg] + found.0, found.1)),
                None => None,
            },
            None => None,
        }
    }
}

/// Why a route cannot be registered.
#[derive(PartialEq, Eq, Structural, Clone, Copy, Debug)]
pub enum RouteConflict {
    /// A handler is already registered for the method and pattern.
    DuplicateRoute,
    /// Another parameter name is already in use at a depth where the
    /// pattern has a parameter segment.
    ParamConflict,
}

/// What stops a route with `pattern` from being registered for `m`, found
/// walking the pattern from the root: a parameter segment where another
/// parameter name continues a registered pattern at that depth, or else a
/// route already registered for the method and pattern.
pub open spec fn register_conflict<H>(t: RouteTable<H>, m: MethodType, pattern: Seq<Seq<char>>) -> Option<RouteConflict>
    decreases pattern.len(),
{
    if pattern.len() == 0 {
        if t.contains_key((Seq::empty(), m)) {
            Some(RouteConflict::DuplicateRoute)
        } else {
            None
        }
    } else if is_param_segment(pattern[0]) && other_param_branch(t, pattern[0]) {
        Some(RouteConflict::ParamConflict)
    } else {
        register_conflict(subtable(t, pattern[0]), m, pattern.drop_first())
    }
}

/// Whether a route with `pattern` can be registered for `m`.
pub open spec fn can_register<H>(t: RouteTable<H>, m: MethodType, pattern: Seq<Seq<char>>) -> bool {
    register_conflict(t, m, pattern) is None
}

/// Registering on an empty table never conflicts.
pub proof fn lemma_can_register_empty<H>(m: MethodType, pattern: Seq<Seq<char>>)
    ensures
        register_conflict(Map::<(Seq<Seq<char>>, MethodType), H>::empty(), m, pattern) is None,
    decreases pattern.len(),
{
    let t = Map::<(Seq<Seq<char>>, MethodType), H>::empty();
    if pattern.len() > 0 {
        assert(subtable(t, pattern[0]) =~= t);
        lemma_can_register_empty::<H>(m, pattern.drop_first());
    }
}

/// The path shown for a child with segment `seg` below the path `route`.
pub open spec fn child_path(route: Seq<char>, seg: Seq<char>) -> Seq<char> {
    if route.len() == 0 {
        seg
    } else {
        route + "/"@ + seg
    }
}

/// The line that lists a route: `"|<method>| /<path>"`.
pub open spec fn route_line(m: MethodType, route: Seq<char>) -> Seq<char> {
    "|"@ + method_name(m) + "| /"@ + route
}

/// The path shown for the route `pattern` below the path `route`.
pub open spec fn pattern_path(route: Seq<char>, pattern: Seq<Seq<char>>) -> Seq<char>
    decreases pattern.len(),
{
    if pattern.len() == 0 {
        route
    } else {
        pattern_path(child_path(route, pattern[0]), pattern.drop_first())
    }
}

/// The lines for the handlers in `hs`, by method name.
pub open spec fn handler_lines<H>(hs: Seq<Option<H>>, route: Seq<char>, i: nat) -> Seq<Seq<char>>
    decreases hs.len() - i,
{
    if i >= hs.len() {
        Seq::empty()
    } else {
        (if hs[i as int] is Some {
            seq![route_line(method_at_slot(i), route)]
        } else {
            Seq::empty()
        }) + handler_lines(hs, route, i + 1)
    }
}

/// A registered route is reached by the request that spells out its
/// pattern, segment for segment, and the request gets that route's handler.
pub proof fn lemma_registered_route_found<H>(t: RouteTable<H>, m: MethodType, pattern: Seq<Seq<char>>)
    requires
        t.contains_key((pattern, m)),
    ensures
        route_match(t, m, pattern) == Some((pattern, t[(pattern, m)])),
    decreases pattern.len(),
{
    if pattern.len() > 0 {
        let s = pattern[0];
        let rest = pattern.drop_first();
        assert(pattern =~= seq![s] + rest);
        assert(has_branch(t, s));
        let sub = subtable(t, s);
        assert(sub.contains_key((rest, m)));
        lemma_registered_route_found(sub, m, rest);
    } else {
        assert(pattern =~= Seq::<Seq<char>>::empty());
    }
}

/// A request only ever reaches a route registered for its own method, with
/// as many segments as the request, each of them the request's segment or a
/// parameter segment.
pub proof fn lemma_match_is_registered<H>(t: RouteTable<H>, m: MethodType, request: Seq<Seq<char>>)
    requires
        route_match(t, m, request) is Some,
    ensures
        ({
            let (pattern, h) = route_match(t, m, request)->0;
            &&& t.contains_key((pattern, m))
            &&& t[(pattern, m)] == h
            &&& pattern.len() == request.len()
            &&& forall|i: int|
                0 <= i < pattern.len() ==> pattern[i] == request[i] || is_param_segment(
                    #[trigger] pattern[i],
                )
        }),
    decreases request.len(),
{
    if request.len() > 0 {
        let s = request[0];
        let seg = if has_branch(t, s) {
            s
        } else {
            choose|p: Seq<char>| is_param_segment(p) && #[trigger] has_branch(t, p)
        };
        let sub = subtable(t, seg);
        let rest = request.drop_first();
        lemma_match_is_registered(sub, m, rest);
        let (p2, h2) = route_match(sub, m, rest)->0;
        let pattern = seq![seg] + p2;
        assert(route_match(t, m, request)->0 == (pattern, h2));
        assert(sub.contains_key((p2, m)));
        assert forall|i: int| 0 <= i < pattern.len() implies pattern[i] == request[i]
            || is_param_segment(#[trigger] pattern[i]) by {
            if i > 0 {
                assert(pattern[i] == p2[i - 1]);
                assert(request[i] == rest[i - 1]);
            }
        }
    }
}

/// A route that is already registered cannot be registered again.
pub proof fn lemma_registered_route_refused<H>(t: RouteTable<H>, m: MethodType, pattern: Seq<Seq<char>>)
    requires
        t.contains_key((pattern, m)),
    ensures
        register_conflict(t, m, pattern) is Some,
    decreases pattern.len(),
{
    if pattern.len() > 0 {
        let s = pattern[0];
        let rest = pattern.drop_first();
        assert(pattern =~= seq![s] + rest);
        assert(subtable(t, s).contains_key((rest, m)));
        lemma_registered_route_refused(subtable(t, s), m, rest);
    } else {
        assert(pattern =~= Seq::<Seq<char>>::empty());
    }
}

/// A route whose parameter segment at some depth has another name than a
/// parameter segment of a registered route at that depth, with the same
/// segments before it, is refused as a parameter conflict, whatever the
/// method.
pub proof fn lemma_param_conflict_refused<H>(
    t: RouteTable<H>,
    registered: Seq<Seq<char>>,
    m: MethodType,
    pattern: Seq<Seq<char>>,
    m2: MethodType,
    depth: int,
)
    requires
        t.contains_key((registered, m)),
        0 <= depth < registered.len(),
        depth < pattern.len(),
        pattern.take(depth) == registered.take(depth),
        is_param_segment(registered[depth]),
        is_param_segment(pattern[depth]),
        pattern[depth] != registered[depth],
    ensures
        register_conflict(t, m2, pattern) == Some(RouteConflict::ParamConflict),
    decreases depth,
{
    if depth == 0 {
        assert(registered =~= seq![registered[0]] + registered.drop_first());
        assert(has_branch(t, registered[0]));
        assert(other_param_branch(t, pattern[0]));
    } else {
        let s = pattern[0];
        assert(registered[0] == registered.take(depth)[0]);
        assert(pattern[0] == pattern.take(depth)[0]);
        if !(is_param_segment(s) && other_param_branch(t, s)) {
            let rest = registered.drop_first();
            assert(registered =~= seq![s] + rest);
            assert(subtable(t, s).contains_key((rest, m)));
            assert(pattern.drop_first().take(depth - 1) =~= rest.take(depth - 1)) by {
                assert forall|i: int| 0 <= i < depth - 1 implies pattern.drop_first()[i] == rest[i] by {
                    assert(pattern.take(depth)[i + 1] == registered.take(depth)[i + 1]);
                }
            }
            lemma_param_conflict_refused(subtable(t, s), rest, m, pattern.drop_first(), m2, depth - 1);
        }
    }
}

/// A node of the route tree: one segment of the registered patterns, the
/// handlers of the routes that end here, and the nodes below it.
pub struct Router<H> {
    pub route: String,
    children: Vec<Router<H>>,
    params_child_route: String,
    handlers: Vec<Option<H>>,
    full_route: Vec<String>,
}

impl<H> Router<H> {
    /// The segments from the root to this node, the root's own included.
    pub closed spec fn segs(self) -> Seq<Seq<char>> {
        views(self.full_route@)
    }

    /// Some child has segment `seg`.
    pub closed spec fn has_child(self, seg: Seq<char>) -> bool {
        exists|i: int| 0 <= i < self.children@.len() && #[trigger] self.children@[i].route@ == seg
    }

    /// The index of the child with segment `seg`.
    pub closed spec fn child_index(self, seg: Seq<char>) -> int {
        choose|i: int| 0 <= i < self.children@.len() && #[trigger] self.children@[i].route@ == seg
    }

    /// The handler registered for `m` at the end of `path` below this node.
    pub closed spec fn entry(self, path: Seq<Seq<char>>, m: MethodType) -> Option<H>
        decreases path.len(),
    {
        if path.len() == 0 {
            if self.handlers@.len() == METHOD_COUNT {
                self.handlers@[method_slot(m) as int]
            } else {
                None
            }
        } else if self.has_child(path[0]) {
            self.children@[self.child_index(path[0])].entry(path.drop_first(), m)
        } else {
            None
        }
    }

    /// The routes registered below this node.
    pub closed spec fn table(self) -> RouteTable<H> {
        Map::new(
            |k: (Seq<Seq<char>>, MethodType)| self.entry(k.0, k.1) is Some,
            |k: (Seq<Seq<char>>, MethodType)| self.entry(k.0, k.1)->0,
        )
    }

    /// Some route is registered below this node.
    pub closed spec fn nonempty(self) -> bool {
        exists|k: (Seq<Seq<char>>, MethodType)| #[trigger] self.entry(k.0, k.1) is Some
    }

    /// The tree is well formed: one handler slot per method; children in
    /// strictly increasing order of their segments; every child well formed,
    /// holding some route, and knowing its own path; and the parameter child,
    /// if any, is the only child whose segment is a parameter.
    pub closed spec fn wf(self) -> bool
        decreases self,
    {
        &&& self.handlers@.len() == METHOD_COUNT
        &&& forall|i: int, j: int|
            0 <= i < j < self.children@.len() ==> seq_less(
                #[trigger] self.children@[i].route@,
                #[trigger] self.children@[j].route@,
            )
        &&& forall|i: int| 0 <= i < self.children@.len() ==> (#[trigger] self.children@[i]).wf()
        &&& forall|i: int| 0 <= i < self.children@.len() ==> (#[trigger] self.children@[i]).nonempty()
        &&& forall|i: int|
            0 <= i < self.children@.len() ==> (#[trigger] self.children@[i]).segs() == self.segs().push(
                self.children@[i].route@,
            )
        &&& if self.params_child_route@.len() == 0 {
            forall|i: int|
                0 <= i < self.children@.len() ==> !is_param_segment(
                    #[trigger] self.children@[i].route@,
                )
        } else {
            &&& is_param_segment(self.params_child_route@)
            &&& self.has_child(self.params_child_route@)
            &&& forall|i: int|
                0 <= i < self.children@.len() && is_param_segment(
                    #[trigger] self.children@[i].route@,
                ) ==> self.children@[i].route@ == self.params_child_route@
        }
    }
}


impl<H> Router<H> {
    /// In a well-formed node, no two children share a segment.
    proof fn lemma_child_unique(self, i: int, j: int)
        requires
            self.wf(),
            0 <= i < self.children@.len(),
            0 <= j < self.children@.len(),
            self.children@[i].route@ == self.children@[j].route@,
        ensures
            i == j,
    {
        lemma_seq_less_irreflexive(self.children@[i].route@);
        if i < j {
            assert(seq_less(self.children@[i].route@, self.children@[j].route@));
        } else if j < i {
            assert(seq_less(self.children@[j].route@, self.children@[i].route@));
        }
    }

    /// The index chosen for a segment is the child that has it.
    proof fn lemma_child_index(self, i: int)
        requires
            self.wf(),
            0 <= i < self.children@.len(),
        ensures
            self.has_child(self.children@[i].route@),
            self.child_index(self.children@[i].route@) == i,
    {
        let s = self.children@[i].route@;
        assert(self.children@[i].route@ == s);
        let k = self.child_index(s);
        self.lemma_child_unique(i, k);
    }

    /// Below a child, the entries of a node are those of the child.
    proof fn lemma_entry_child(self, i: int, q: Seq<Seq<char>>, m: MethodType)
        requires
            self.wf(),
            0 <= i < self.children@.len(),
        ensures
            self.entry(seq![self.children@[i].route@] + q, m) == self.children@[i].entry(q, m),
    {
        self.lemma_child_index(i);
        let path = seq![self.children@[i].route@] + q;
        assert(path[0] == self.children@[i].route@);
        assert(path.drop_first() =~= q);
    }

    /// A well-formed node's table continues with segment `s` exactly when it
    /// has a child for `s`, and the routes below `s` are that child's.
    proof fn lemma_branch(self, s: Seq<char>)
        requires
            self.wf(),
        ensures
            has_branch(self.table(), s) <==> self.has_child(s),
            self.has_child(s) ==> subtable(self.table(), s) =~= self.children@[self.child_index(
                s,
            )].table(),
            !self.has_child(s) ==> subtable(self.table(), s) =~= Map::empty(),
            self.has_child(s) ==> self.children@[self.child_index(s)].route@ == s,
            self.has_child(s) ==> 0 <= self.child_index(s) < self.children@.len(),
    {
        let t = self.table();
        if self.has_child(s) {
            let i = self.child_index(s);
            self.lemma_child_index(i);
            let c = self.children@[i];
            assert(c.nonempty());
            let k = choose|k: (Seq<Seq<char>>, MethodType)| #[trigger] c.entry(k.0, k.1) is Some;
            self.lemma_entry_child(i, k.0, k.1);
            let key = (seq![s] + k.0, k.1);
            assert(t.contains_key(key));
            assert(key.0[0] == s);
            assert forall|q: (Seq<Seq<char>>, MethodType)| #[trigger]
                subtable(t, s).contains_key(q) <==> c.table().contains_key(q) by {
                self.lemma_entry_child(i, q.0, q.1);
            }
            assert forall|q: (Seq<Seq<char>>, MethodType)| #[trigger]
                subtable(t, s).contains_key(q) implies subtable(t, s)[q] == c.table()[q] by {
                self.lemma_entry_child(i, q.0, q.1);
            }
        } else {
            assert forall|k: (Seq<Seq<char>>, MethodType)|
                t.contains_key(k) && k.0.len() > 0 implies k.0[0] != s by {}
            assert forall|q: (Seq<Seq<char>>, MethodType)| !#[trigger] subtable(
                t,
                s,
            ).contains_key(q) by {
                let key = (seq![s] + q.0, q.1);
                assert(key.0[0] == s);
            }
        }
    }
}


impl<H> Router<H> {
    /// The routes that end at this node are its handlers.
    proof fn lemma_here(self, m: MethodType)
        requires
            self.wf(),
        ensures
            self.table().contains_key((Seq::empty(), m)) <==> self.handlers@[method_slot(
                m,
            ) as int] is Some,
            self.table().contains_key((Seq::empty(), m)) ==> self.table()[(Seq::empty(), m)]
                == self.handlers@[method_slot(m) as int]->0,
    {
        lemma_method_slots();
    }

    /// The parameter branch of a well-formed node's table is its parameter child.
    proof fn lemma_param_branch(self)
        requires
            self.wf(),
        ensures
            (exists|p: Seq<char>| is_param_segment(p) && #[trigger] has_branch(self.table(), p))
                <==> self.params_child_route@.len() > 0,
            forall|p: Seq<char>|
                is_param_segment(p) && #[trigger] has_branch(self.table(), p) ==> p
                    == self.params_child_route@,
    {
        assert forall|p: Seq<char>|
            is_param_segment(p) && #[trigger] has_branch(self.table(), p) implies p
            == self.params_child_route@ by {
            self.lemma_branch(p);
            let i = self.child_index(p);
            assert(is_param_segment(self.children@[i].route@));
        }
        if self.params_child_route@.len() > 0 {
            self.lemma_branch(self.params_child_route@);
        }
    }

    /// The child whose segment is `seg`, if any.
    fn find_child(&self, seg: &String) -> (r: Option<usize>)
        requires
            self.wf(),
        ensures
            match r {
                Some(i) => i < self.children@.len() && self.children@[i as int].route@ == seg@
                    && self.has_child(seg@) && self.child_index(seg@) == i,
                None => !self.has_child(seg@),
            },
    {
        let mut i: usize = 0;
        while i < self.children.len()
            invariant
                self.wf(),
                i <= self.children@.len(),
                forall|j: int| 0 <= j < i ==> self.children@[j].route@ != seg@,
            decreases self.children.len() - i,
        {
            if self.children[i].route == *seg {
                proof {
                    self.lemma_child_index(i as int);
                }
                return Some(i);
            }
            i = i + 1;
        }
        None
    }

    /// Follows `route_segs` below this node (which stands for
    /// `route_segs[cur_index]`) to the route registered for `method_type`:
    /// gives the full path of the matched route and its handler.
    pub(crate) fn search_route(&self, method_type: MethodType, route_segs: &[String], cur_index: usize) -> (r:
        Option<(&[String], &H)>)
        requires
            self.wf(),
            cur_index < route_segs@.len(),
        ensures
            ({
                let found = route_match(
                    self.table(),
                    method_type,
                    views(route_segs@).skip(cur_index + 1),
                );
                match r {
                    Some(res) => found is Some && views(res.0@) == self.segs() + (found->0).0
                        && *res.1 == (found->0).1,
                    None => found is None,
                }
            }),
        decreases route_segs@.len() - cur_index,
    {
        let ghost rest = views(route_segs@).skip(cur_index + 1);
        if cur_index == route_segs.len() - 1 {
            proof {
                self.lemma_here(method_type);
                assert(rest.len() == 0);
                assert(self.segs() + Seq::<Seq<char>>::empty() =~= self.segs());
            }
            let slot = method_type.slot();
            match &self.handlers[slot] {
                Some(h) => Some((self.full_route.as_slice(), h)),
                None => None,
            }
        } else {
            let ghost s = route_segs@[cur_index + 1]@;
            assert(rest[0] == s);
            assert(rest.drop_first() =~= views(route_segs@).skip(cur_index + 2));
            proof {
                self.lemma_branch(s);
                self.lemma_param_branch();
            }
            let next = match self.find_child(&route_segs[cur_index + 1]) {
                Some(i) => Some(i),
                None => {
                    if !self.params_child_route.as_str().is_empty() {
                        proof {
                            self.lemma_branch(self.params_child_route@);
                        }
                        self.find_child(&self.params_child_route)
                    } else {
                        None
                    }
                },
            };
            match next {
                None => None,
                Some(i) => {
                    let child = &self.children[i];
                    let ghost seg = child.route@;
                    proof {
                        self.lemma_branch(seg);
                        assert(self.children@[i as int].wf());
                    }
                    let res = child.search_route(method_type, route_segs, cur_index + 1);
                    proof {
                        assert(child.segs() == self.segs().push(seg));
                        match res {
                            Some(x) => {
                                let f = route_match(subtable(self.table(), seg), method_type, rest.drop_first());
                                assert(self.segs().push(seg) + (f->0).0 =~= self.segs() + (seq![seg] + (f->0).0));
                            },
                            None => {},
                        }
                    }
                    res
                },
            }
        }
    }
}


impl<H> Router<H> {
    /// A node with no routes below it.
    fn empty_node(route: String, full_route: Vec<String>) -> (r: Router<H>)
        ensures
            r.wf(),
            r.table() =~= Map::empty(),
            r.route == route,
            r.full_route == full_route,
            r.children@.len() == 0,
            r.params_child_route@.len() == 0,
    {
        let mut handlers: Vec<Option<H>> = Vec::new();
        let mut i: usize = 0;
        while i < METHOD_COUNT
            invariant
                i <= METHOD_COUNT,
                handlers@.len() == i,
                forall|j: int| 0 <= j < i ==> handlers@[j] is None,
            decreases METHOD_COUNT - i,
        {
            handlers.push(None);
            i = i + 1;
        }
        let r = Router { route, children: Vec::new(), params_child_route: String::new(), handlers, full_route };
        assert forall|k: (Seq<Seq<char>>, MethodType)| !(#[trigger] r.table().contains_key(k)) by {
            lemma_method_slots();
        }
        r
    }

    /// Where a child for `seg`, which the node does not have, goes among the
    /// children to keep them in order.
    fn insert_position(&self, seg: &String) -> (pos: usize)
        requires
            self.wf(),
            !self.has_child(seg@),
        ensures
            pos <= self.children@.len(),
            forall|j: int| 0 <= j < pos ==> seq_less(#[trigger] self.children@[j].route@, seg@),
            forall|j: int|
                pos <= j < self.children@.len() ==> seq_less(seg@, #[trigger] self.children@[j].route@),
    {
        let mut i: usize = 0;
        while i < self.children.len() && !str_less(seg.as_str(), self.children[i].route.as_str())
            invariant
                self.wf(),
                !self.has_child(seg@),
                i <= self.children@.len(),
                forall|j: int| 0 <= j < i ==> seq_less(#[trigger] self.children@[j].route@, seg@),
            decreases self.children.len() - i,
        {
            proof {
                lemma_seq_less_total(self.children@[i as int].route@, seg@);
                if self.children@[i as int].route@ == seg@ {
                    assert(self.has_child(seg@));
                }
            }
            i = i + 1;
        }
        assert forall|j: int| i <= j < self.children@.len() implies seq_less(
            seg@,
            #[trigger] self.children@[j].route@,
        ) by {
            if j > i {
                assert(seq_less(self.children@[i as int].route@, self.children@[j].route@));
                lemma_seq_less_transitive(seg@, self.children@[i as int].route@, self.children@[j].route@);
            }
        }
        i
    }

    /// Registers `handler` for `method_type` at the end of `route_segs`
    /// below this node, which stands for `route_segs[cur_index]`, creating
    /// the nodes that are missing on the way.
    fn modify(&mut self, method_type: MethodType, route_segs: &Vec<String>, cur_index: usize, handler: H)
        requires
            old(self).wf(),
            cur_index < route_segs@.len(),
            old(self).segs() == views(route_segs@).take(cur_index + 1),
            can_register(old(self).table(), method_type, views(route_segs@).skip(cur_index + 1)),
        ensures
            final(self).wf(),
            final(self).nonempty(),
            final(self).table() == old(self).table().insert(
                (views(route_segs@).skip(cur_index + 1), method_type),
                handler,
            ),
            final(self).segs() == old(self).segs(),
            final(self).route == old(self).route,
        decreases route_segs@.len() - cur_index,
    {
        let ghost pat = views(route_segs@).skip(cur_index + 1);
        let ghost old_self = *self;
        if cur_index == route_segs.len() - 1 {
            let slot = method_type.slot();
            self.handlers[slot] = Some(handler);
            proof {
                lemma_method_slots();
                assert(pat =~= Seq::<Seq<char>>::empty());
                assert forall|i: int| 0 <= i < self.children@.len() implies (#[trigger] self.children@[i]).wf() by {
                    assert(old_self.children@[i].wf());
                }
                assert(self.entry(Seq::empty(), method_type) is Some);
                let target = old_self.table().insert((pat, method_type), handler);
                assert forall|k: (Seq<Seq<char>>, MethodType)|
                    #![trigger self.table().contains_key(k)]
                    #![trigger target.contains_key(k)]
                    self.table().contains_key(k) == target.contains_key(k) && (self.table().contains_key(k)
                        ==> self.table()[k] == target[k]) by {
                    if k.0.len() == 0 {
                        assert(k.0 =~= pat);
                        if k.1 != method_type {
                            assert(method_slot(k.1) != method_slot(method_type));
                        }
                    } else {
                        assert(self.children == old_self.children);
                    }
                }
                assert(self.table() =~= target);
            }
        } else {
            let new_seg = &route_segs[cur_index + 1];
            let ghost seg = new_seg@;
            let ghost rest = views(route_segs@).skip(cur_index + 2);
            proof {
                assert(pat[0] == seg);
                assert(pat.drop_first() =~= rest);
                assert(pat =~= seq![seg] + rest);
                assert(views(route_segs@).take(cur_index + 2) =~= old_self.segs().push(seg));
                old_self.lemma_branch(seg);
            }
            let is_param = starts_with_char(new_seg.as_str(), ':');
            let pos: usize;
            let existed: bool;
            match self.find_child(new_seg) {
                Some(i) => {
                    let mut child = self.children.remove(i);
                    proof {
                        assert(child == old_self.children@[i as int]);
                        assert(child.wf());
                    }
                    child.modify(method_type, route_segs, cur_index + 1, handler);
                    self.children.insert(i, child);
                    assert(self.children@ =~= old_self.children@.update(i as int, self.children@[i as int]));
                    pos = i;
                    existed = true;
                },
                None => {
                    let p = self.insert_position(new_seg);
                    let mut full: Vec<String> = Vec::new();
                    let upto = cur_index + 2;
                    let mut k: usize = 0;
                    while k < upto
                        invariant
                            upto <= route_segs@.len(),
                            k <= upto,
                            views(full@) =~= views(route_segs@).take(k as int),
                        decreases upto - k,
                    {
                        let piece = route_segs[k].clone();
                        proof {
                            assert(views(full@.push(piece)) =~= views(full@).push(piece@));
                            assert(views(route_segs@).take(k + 1) =~= views(route_segs@).take(k as int).push(route_segs@[k as int]@));
                        }
                        full.push(piece);
                        k = k + 1;
                    }
                    let mut child = Router::empty_node(new_seg.clone(), full);
                    child.modify(method_type, route_segs, cur_index + 1, handler);
                    self.children.insert(p, child);
                    pos = p;
                    existed = false;
                },
            }
            if is_param {
                self.params_child_route = new_seg.clone();
            }
            proof {
                if existed {
                    self.lemma_after_existing_child(old_self, pos as int, seg, rest, method_type, handler);
                } else {
                    self.lemma_new_child_wf(old_self, pos as int, seg, rest, method_type, handler);
                    self.lemma_new_child_table(old_self, pos as int, seg, rest, method_type, handler);
                }
            }
        }
    }

    /// Two well-formed nodes that share a child for segment `s` agree on
    /// every route that continues with `s`.
    proof fn lemma_shared_child(self, other: Router<H>, i: int, j: int, q: Seq<Seq<char>>, m: MethodType)
        requires
            self.wf(),
            other.wf(),
            0 <= i < self.children@.len(),
            0 <= j < other.children@.len(),
            self.children@[i] == other.children@[j],
        ensures
            self.entry(seq![self.children@[i].route@] + q, m) == other.entry(
                seq![self.children@[i].route@] + q,
                m,
            ),
    {
        self.lemma_entry_child(i, q, m);
        other.lemma_entry_child(j, q, m);
    }

    /// A path is its first segment followed by the rest.
    proof fn lemma_path_split(path: Seq<Seq<char>>)
        requires
            path.len() > 0,
        ensures
            path =~= seq![path[0]] + path.drop_first(),
    {
    }

    /// The state after `modify` descended into the existing child at `pos`
    /// for segment `seg`: the node is well formed and holds the new route.
    #[verifier::rlimit(30)]
    proof fn lemma_after_existing_child(
        self,
        old_self: Router<H>,
        pos: int,
        seg: Seq<char>,
        rest: Seq<Seq<char>>,
        m: MethodType,
        h: H,
    )
        requires
            old_self.wf(),
            self.handlers == old_self.handlers,
            self.full_route == old_self.full_route,
            self.params_child_route@ == (if is_param_segment(seg) {
                seg
            } else {
                old_self.params_child_route@
            }),
            0 <= pos < old_self.children@.len(),
            old_self.children@[pos].route@ == seg,
            self.children@ == old_self.children@.update(pos, self.children@[pos]),
            self.children@[pos].wf(),
            self.children@[pos].nonempty(),
            self.children@[pos].route@ == seg,
            self.children@[pos].segs() == old_self.segs().push(seg),
            self.children@[pos].table() == old_self.children@[pos].table().insert((rest, m), h),
        ensures
            self.wf(),
            self.nonempty(),
            self.table() == old_self.table().insert((seq![seg] + rest, m), h),
    {
        let cs = self.children@;
        let os = old_self.children@;
        assert forall|i: int| 0 <= i < cs.len() implies #[trigger] cs[i].route@ == os[i].route@ by {}
        if is_param_segment(seg) {
            assert(is_param_segment(os[pos].route@));
            assert(old_self.params_child_route@.len() > 0);
        }
        assert(self.params_child_route@ == old_self.params_child_route@);
        if self.params_child_route@.len() > 0 {
            let k = old_self.child_index(old_self.params_child_route@);
            assert(cs[k].route@ == self.params_child_route@);
        }
        assert(self.wf());
        let c = cs[pos];
        let w = choose|k: (Seq<Seq<char>>, MethodType)| #[trigger] c.entry(k.0, k.1) is Some;
        self.lemma_entry_child(pos, w.0, w.1);
        let wk = (seq![seg] + w.0, w.1);
        assert(self.entry(wk.0, wk.1) is Some);
        let target = old_self.table().insert((seq![seg] + rest, m), h);
        assert forall|k: (Seq<Seq<char>>, MethodType)|
            #![trigger self.table().contains_key(k)]
            #![trigger target.contains_key(k)]
            self.table().contains_key(k) == target.contains_key(k) && (self.table().contains_key(k)
                ==> self.table()[k] == target[k]) by {
            let path = k.0;
            assert((seq![seg] + rest)[0] == seg);
            if path.len() == 0 {
                assert(k != (seq![seg] + rest, m));
            } else {
                Self::lemma_path_split(path);
                let s0 = path[0];
                let q = path.drop_first();
                if s0 == seg {
                    self.lemma_entry_child(pos, q, k.1);
                    old_self.lemma_entry_child(pos, q, k.1);
                    assert(self.entry(path, k.1) == cs[pos].entry(q, k.1));
                    assert(old_self.entry(path, k.1) == os[pos].entry(q, k.1));
                    assert(cs[pos].table().contains_key((q, k.1)) == (cs[pos].entry(q, k.1) is Some));
                    assert(os[pos].table().contains_key((q, k.1)) == (os[pos].entry(q, k.1) is Some));
                    assert((path == seq![seg] + rest) <==> (q == rest)) by {
                        if q == rest {
                            assert(path =~= seq![seg] + rest);
                        }
                        assert((seq![seg] + rest).drop_first() =~= rest);
                        if path == seq![seg] + rest {
                            assert(q == (seq![seg] + rest).drop_first());
                        }
                    }
                    if self.table().contains_key(k) {
                        assert(self.table()[k] == self.entry(path, k.1)->0);
                        assert(cs[pos].table()[(q, k.1)] == cs[pos].entry(q, k.1)->0);
                        if k != (seq![seg] + rest, m) {
                            assert((q, k.1) != (rest, m));
                            assert(old_self.table()[k] == old_self.entry(path, k.1)->0);
                        }
                    }
                } else {
                    assert(k != (seq![seg] + rest, m));
                    if old_self.has_child(s0) {
                        let i = old_self.child_index(s0);
                        assert(i != pos);
                        assert(cs[i] == os[i]);
                        self.lemma_shared_child(old_self, i, i, q, k.1);
                    } else {
                        assert(!self.has_child(s0)) by {
                            if self.has_child(s0) {
                                let j = self.child_index(s0);
                                assert(os[j].route@ == s0);
                            }
                        }
                    }
                }
            }
        }
        assert(self.table() =~= target);
    }

    /// After `modify` added a new child at `pos` for segment `seg`, the node
    /// is well formed.
    #[verifier::rlimit(30)]
    proof fn lemma_new_child_wf(
        self,
        old_self: Router<H>,
        pos: int,
        seg: Seq<char>,
        rest: Seq<Seq<char>>,
        m: MethodType,
        h: H,
    )
        requires
            old_self.wf(),
            !old_self.has_child(seg),
            is_param_segment(seg) ==> !other_param_branch(old_self.table(), seg),
            self.handlers == old_self.handlers,
            self.full_route == old_self.full_route,
            self.params_child_route@ == (if is_param_segment(seg) {
                seg
            } else {
                old_self.params_child_route@
            }),
            0 <= pos <= old_self.children@.len(),
            self.children@ == old_self.children@.insert(pos, self.children@[pos]),
            forall|j: int| 0 <= j < pos ==> seq_less(#[trigger] old_self.children@[j].route@, seg),
            forall|j: int|
                pos <= j < old_self.children@.len() ==> seq_less(seg, #[trigger] old_self.children@[j].route@),
            self.children@[pos].wf(),
            self.children@[pos].nonempty(),
            self.children@[pos].route@ == seg,
            self.children@[pos].segs() == old_self.segs().push(seg),
            self.children@[pos].table() == Map::<(Seq<Seq<char>>, MethodType), H>::empty().insert(
                (rest, m),
                h,
            ),
        ensures
            self.wf(),
    {
        let cs = self.children@;
        let os = old_self.children@;
        assert forall|i: int| 0 <= i < os.len() implies cs[if i < pos { i } else { i + 1 }] == #[trigger] os[i] by {}
        assert forall|i: int, j: int| 0 <= i < j < cs.len() implies seq_less(
            #[trigger] cs[i].route@,
            #[trigger] cs[j].route@,
        ) by {
            if j < pos {
                assert(cs[i] == os[i] && cs[j] == os[j]);
            } else if j == pos {
                assert(cs[i] == os[i]);
            } else if i < pos {
                assert(cs[i] == os[i] && cs[j] == os[j - 1]);
                lemma_seq_less_transitive(os[i].route@, seg, os[j - 1].route@);
            } else if i == pos {
                assert(cs[j] == os[j - 1]);
            } else {
                assert(cs[i] == os[i - 1] && cs[j] == os[j - 1]);
            }
        }
        assert forall|i: int| 0 <= i < cs.len() && i != pos implies #[trigger] cs[i] == os[if i
            < pos {
            i
        } else {
            i - 1
        }] by {}
        if is_param_segment(seg) {
            assert forall|i: int|
                0 <= i < cs.len() && is_param_segment(#[trigger] cs[i].route@) implies cs[i].route@
                == self.params_child_route@ by {
                if i != pos {
                    let oi = if i < pos { i } else { i - 1 };
                    let r = os[oi].route@;
                    old_self.lemma_branch(r);
                    assert(old_self.children@[oi].route@ == r);
                    assert(old_self.has_child(r));
                    if r != seg {
                        assert(other_param_branch(old_self.table(), seg));
                    }
                }
            }
            assert(cs[pos].route@ == seg);
        } else if self.params_child_route@.len() > 0 {
            let k = old_self.child_index(old_self.params_child_route@);
            let nk = if k < pos { k } else { k + 1 };
            assert(cs[nk].route@ == self.params_child_route@);
        }
        assert(self.wf());
    }

    /// The routes after `modify` added a new child at `pos` for segment
    /// `seg`: the old ones and the new route.
    #[verifier::rlimit(30)]
    proof fn lemma_new_child_table(
        self,
        old_self: Router<H>,
        pos: int,
        seg: Seq<char>,
        rest: Seq<Seq<char>>,
        m: MethodType,
        h: H,
    )
        requires
            old_self.wf(),
            !old_self.has_child(seg),
            is_param_segment(seg) ==> !other_param_branch(old_self.table(), seg),
            self.handlers == old_self.handlers,
            self.full_route == old_self.full_route,
            self.params_child_route@ == (if is_param_segment(seg) {
                seg
            } else {
                old_self.params_child_route@
            }),
            0 <= pos <= old_self.children@.len(),
            self.children@ == old_self.children@.insert(pos, self.children@[pos]),
            forall|j: int| 0 <= j < pos ==> seq_less(#[trigger] old_self.children@[j].route@, seg),
            forall|j: int|
                pos <= j < old_self.children@.len() ==> seq_less(seg, #[trigger] old_self.children@[j].route@),
            self.children@[pos].wf(),
            self.children@[pos].nonempty(),
            self.children@[pos].route@ == seg,
            self.children@[pos].segs() == old_self.segs().push(seg),
            self.children@[pos].table() == Map::<(Seq<Seq<char>>, MethodType), H>::empty().insert(
                (rest, m),
                h,
            ),
            self.wf(),
        ensures
            self.nonempty(),
            self.table() == old_self.table().insert((seq![seg] + rest, m), h),
    {
        let cs = self.children@;
        let os = old_self.children@;
        let c = cs[pos];
        let w = choose|k: (Seq<Seq<char>>, MethodType)| #[trigger] c.entry(k.0, k.1) is Some;
        self.lemma_entry_child(pos, w.0, w.1);
        let wk = (seq![seg] + w.0, w.1);
        assert(self.entry(wk.0, wk.1) is Some);
        let target = old_self.table().insert((seq![seg] + rest, m), h);
        assert forall|k: (Seq<Seq<char>>, MethodType)|
            #![trigger self.table().contains_key(k)]
            #![trigger target.contains_key(k)]
            self.table().contains_key(k) == target.contains_key(k) && (self.table().contains_key(k)
                ==> self.table()[k] == target[k]) by {
            let path = k.0;
            assert((seq![seg] + rest)[0] == seg);
            if path.len() == 0 {
                assert(k != (seq![seg] + rest, m));
            } else {
                Self::lemma_path_split(path);
                let s0 = path[0];
                let q = path.drop_first();
                if s0 == seg {
                    self.lemma_entry_child(pos, q, k.1);
                    assert(self.entry(path, k.1) == cs[pos].entry(q, k.1));
                    assert(!old_self.has_child(path[0]));
                    assert(old_self.entry(path, k.1) is None);
                    assert(cs[pos].table().contains_key((q, k.1)) == (cs[pos].entry(q, k.1) is Some));
                    assert((path == seq![seg] + rest) <==> (q == rest)) by {
                        if q == rest {
                            assert(path =~= seq![seg] + rest);
                        }
                        assert((seq![seg] + rest).drop_first() =~= rest);
                        if path == seq![seg] + rest {
                            assert(q == (seq![seg] + rest).drop_first());
                        }
                    }
                    if self.table().contains_key(k) {
                        assert(self.table()[k] == self.entry(path, k.1)->0);
                        assert(cs[pos].table()[(q, k.1)] == cs[pos].entry(q, k.1)->0);
                        if k != (seq![seg] + rest, m) {
                            assert((q, k.1) != (rest, m));
                            assert(old_self.table()[k] == old_self.entry(path, k.1)->0);
                        }
                    }
                } else {
                    assert(k != (seq![seg] + rest, m));
                    if old_self.has_child(s0) {
                        let i = old_self.child_index(s0);
                        let ni = if i < pos { i } else { i + 1 };
                        assert(cs[ni] == os[i]);
                        self.lemma_shared_child(old_self, ni, i, q, k.1);
                    } else {
                        assert(!self.has_child(s0)) by {
                            if self.has_child(s0) {
                                let j = self.child_index(s0);
                                assert(j != pos);
                                let oj = if j < pos { j } else { j - 1 };
                                assert(os[oj].route@ == s0);
                            }
                        }
                    }
                }
            }
        }
        assert(self.table() =~= target);
    }
}


impl<H> Router<H> {
    /// An empty route tree: its root stands for the empty segment before the
    /// first `/`.
    pub fn new() -> (r: Router<H>)
        ensures
            r.wf(),
            r.table() == Map::<(Seq<Seq<char>>, MethodType), H>::empty(),
            r.segs() == seq![Seq::<char>::empty()],
    {
        let mut full_route: Vec<String> = Vec::new();
        full_route.push(String::new());
        let r = Router::empty_node(String::new(), full_route);
        assert(r.segs() =~= seq![Seq::<char>::empty()]);
        r
    }

    /// What stops a route for `method_type` ending with the segments of
    /// `route_segs` after `cur_index` from being registered below this node.
    pub(crate) fn register_conflict_at(&self, method_type: MethodType, route_segs: &Vec<String>, cur_index: usize) -> (r: Option<RouteConflict>)
        requires
            self.wf(),
            cur_index < route_segs@.len(),
        ensures
            r == register_conflict(self.table(), method_type, views(route_segs@).skip(cur_index + 1)),
        decreases route_segs@.len() - cur_index,
    {
        let ghost pat = views(route_segs@).skip(cur_index + 1);
        if cur_index == route_segs.len() - 1 {
            proof {
                self.lemma_here(method_type);
                assert(pat =~= Seq::<Seq<char>>::empty());
            }
            if self.handlers[method_type.slot()].is_none() {
                None
            } else {
                Some(RouteConflict::DuplicateRoute)
            }
        } else {
            let seg = &route_segs[cur_index + 1];
            proof {
                assert(pat[0] == seg@);
                assert(pat.drop_first() =~= views(route_segs@).skip(cur_index + 2));
                self.lemma_param_branch();
                self.lemma_branch(seg@);
                if self.params_child_route@.len() > 0 {
                    self.lemma_branch(self.params_child_route@);
                }
            }
            if starts_with_char(seg.as_str(), ':') && !self.params_child_route.as_str().is_empty()
                && self.params_child_route != *seg {
                proof {
                    assert(has_branch(self.table(), self.params_child_route@));
                    assert(other_param_branch(self.table(), seg@));
                }
                return Some(RouteConflict::ParamConflict);
            }
            match self.find_child(seg) {
                Some(i) => {
                    proof {
                        assert(self.children@[i as int].wf());
                    }
                    self.children[i].register_conflict_at(method_type, route_segs, cur_index + 1)
                },
                None => {
                    proof {
                        lemma_can_register_empty::<H>(method_type, pat.drop_first());
                    }
                    None
                },
            }
        }
    }

    /// Registers `handler` for `method_type` at the route whose segments,
    /// after the root's, are those of `route_segs` after the first.
    pub(crate) fn insert_route(&mut self, method_type: MethodType, route_segs: &Vec<String>, handler: H)
        requires
            old(self).wf(),
            old(self).segs() == seq![Seq::<char>::empty()],
            route_segs@.len() >= 1,
            route_segs@[0]@ == Seq::<char>::empty(),
            can_register(old(self).table(), method_type, views(route_segs@).skip(1)),
        ensures
            final(self).wf(),
            final(self).segs() == old(self).segs(),
            final(self).table() == old(self).table().insert(
                (views(route_segs@).skip(1), method_type),
                handler,
            ),
    {
        assert(views(route_segs@).take(1) =~= seq![Seq::<char>::empty()]);
        self.modify(method_type, route_segs, 0, handler);
    }

    /// Finds the route that the request segments `route_segs` (the first
    /// standing for the root) reach for `method_type`: the full path of the
    /// route as it was registered, and its handler.
    pub fn get_full_route(&self, method_type: MethodType, route_segs: &[&str]) -> (r: Option<(&[String], &H)>)
        requires
            self.wf(),
            route_segs@.len() >= 1,
        ensures
            ({
                let found = route_match(self.table(), method_type, str_views(route_segs@).drop_first());
                match r {
                    Some(res) => found is Some && views(res.0@) == self.segs() + (found->0).0
                        && *res.1 == (found->0).1,
                    None => found is None,
                }
            }),
    {
        let mut segs: Vec<String> = Vec::new();
        let mut i: usize = 0;
        while i < route_segs.len()
            invariant
                i <= route_segs@.len(),
                views(segs@) =~= str_views(route_segs@).take(i as int),
            decreases route_segs.len() - i,
        {
            let piece = route_segs[i].to_owned();
            proof {
                assert(views(segs@.push(piece)) =~= views(segs@).push(piece@));
                assert(str_views(route_segs@).take(i + 1) =~= str_views(route_segs@).take(i as int).push(route_segs@[i as int]@));
            }
            segs.push(piece);
            i = i + 1;
        }
        assert(views(segs@).skip(1) =~= str_views(route_segs@).drop_first());
        self.search_route(method_type, segs.as_slice(), 0)
    }

    /// Walks down the tree along `full_route` from `cur_index`; the walk
    /// has no effect of its own.
    pub fn exec_middleware(&self, full_route: &[String], cur_index: usize)
        requires
            self.wf(),
            cur_index < full_route@.len(),
        decreases full_route@.len() - cur_index,
    {
        if cur_index == full_route.len() - 1 {
        } else {
            match self.find_child(&full_route[cur_index + 1]) {
                Some(i) => {
                    proof {
                        assert(self.children@[i as int].wf());
                    }
                    self.children[i].exec_middleware(full_route, cur_index + 1);
                },
                None => {},
            }
        }
    }
}


impl<H> Router<H> {
    /// The listing of the routes below this node, whose path is `route`: the
    /// node's own routes by method name, then each child's listing, children
    /// in order of their segments.
    pub closed spec fn listing(self, route: Seq<char>) -> Seq<Seq<char>>
        decreases self,
    {
        handler_lines(self.handlers@, route, 0) + Self::children_listing(self.children@, route)
    }

    /// The listings of `cs` below the path `route`, one after the other.
    pub closed spec fn children_listing(cs: Seq<Router<H>>, route: Seq<char>) -> Seq<Seq<char>>
        decreases cs,
    {
        if cs.len() == 0 {
            Seq::empty()
        } else {
            Self::children_listing(cs.drop_last(), route) + cs.last().listing(
                child_path(route, cs.last().route@),
            )
        }
    }

    /// The lines listing the routes below this node, whose path is `route`.
    pub fn show_routes(&self, route: &str) -> (lines: Vec<String>)
        requires
            self.wf(),
        ensures
            views(lines@) == self.listing(route@),
        decreases self,
    {
        let mut lines: Vec<String> = Vec::new();
        let mut i: usize = 0;
        assert(views(lines@) =~= Seq::<Seq<char>>::empty());
        while i < self.handlers.len()
            invariant
                self.handlers@.len() == METHOD_COUNT,
                i <= self.handlers@.len(),
                views(lines@) + handler_lines(self.handlers@, route@, i as nat) == handler_lines(
                    self.handlers@,
                    route@,
                    0,
                ),
            decreases self.handlers.len() - i,
        {
            let ghost before = views(lines@);
            if self.handlers[i].is_some() {
                let m = MethodType::from_slot(i);
                let mut line = "|".to_owned();
                line.append(m.to_string().as_str());
                line.append("| /");
                line.append(route);
                proof {
                    assert(views(lines@.push(line)) =~= views(lines@).push(line@));
                }
                lines.push(line);
                assert(before + handler_lines(self.handlers@, route@, i as nat) =~= views(lines@)
                    + handler_lines(self.handlers@, route@, (i + 1) as nat));
            } else {
                assert(before + handler_lines(self.handlers@, route@, i as nat) =~= views(lines@)
                    + handler_lines(self.handlers@, route@, (i + 1) as nat));
            }
            i = i + 1;
        }
        assert(handler_lines(self.handlers@, route@, i as nat) =~= Seq::<Seq<char>>::empty());
        let ghost own = views(lines@);
        let mut j: usize = 0;
        assert(self.children@.take(0) =~= Seq::<Router<H>>::empty());
        while j < self.children.len()
            invariant
                self.wf(),
                j <= self.children@.len(),
                own == handler_lines(self.handlers@, route@, 0),
                views(lines@) == own + Self::children_listing(self.children@.take(j as int), route@),
            decreases self.children.len() - j,
        {
            let child = &self.children[j];
            let sub = if route.is_empty() {
                child.route.clone()
            } else {
                let mut p = route.to_owned();
                p.append("/");
                p.append(child.route.as_str());
                p
            };
            proof {
                assert(self.children@[j as int].wf());
                assert(decreases_to!(self => self.children@[j as int]));
            }
            let mut more = child.show_routes(sub.as_str());
            let ghost before = views(lines@);
            let ghost added = views(more@);
            lines.append(&mut more);
            proof {
                let t = self.children@.take(j + 1);
                assert(t.drop_last() =~= self.children@.take(j as int));
                assert(t.last() == *child);
                assert(views(lines@) =~= before + added);
            }
            j = j + 1;
        }
        assert(self.children@.take(j as int) =~= self.children@);
        lines
    }
}

impl<H> Router<H> {
    /// A line is among the handler lines from slot `i` on exactly when a
    /// handler is set at a slot from `i` on for a method with that line.
    proof fn lemma_handler_lines_members(hs: Seq<Option<H>>, route: Seq<char>, i: nat, line: Seq<char>)
        requires
            hs.len() == METHOD_COUNT,
        ensures
            handler_lines(hs, route, i).contains(line) <==> exists|j: nat|
                i <= j < hs.len() && hs[j as int] is Some && line == route_line(
                    method_at_slot(j),
                    route,
                ),
        decreases hs.len() - i,
    {
        if i < hs.len() {
            Self::lemma_handler_lines_members(hs, route, i + 1, line);
            let here: Seq<Seq<char>> = if hs[i as int] is Some {
                seq![route_line(method_at_slot(i), route)]
            } else {
                Seq::empty()
            };
            let later = handler_lines(hs, route, i + 1);
            assert(handler_lines(hs, route, i) == here + later);
            if (here + later).contains(line) {
                let k = choose|k: int| 0 <= k < (here + later).len() && (here + later)[k] == line;
                if k >= here.len() {
                    assert(later[k - here.len()] == line);
                }
            }
            if exists|j: nat|
                i <= j < hs.len() && hs[j as int] is Some && line == route_line(method_at_slot(j), route) {
                let j = choose|j: nat|
                    i <= j < hs.len() && hs[j as int] is Some && line == route_line(method_at_slot(j), route);
                if j == i {
                    assert((here + later)[0] == line);
                } else {
                    let k = choose|k: int| 0 <= k < later.len() && later[k] == line;
                    assert((here + later)[here.len() + k] == line);
                }
            }
        }
    }

    /// A line is among the listings of `cs` exactly when it is in the
    /// listing of one of them.
    proof fn lemma_children_listing_members(cs: Seq<Router<H>>, route: Seq<char>, line: Seq<char>)
        ensures
            Self::children_listing(cs, route).contains(line) <==> exists|j: int|
                0 <= j < cs.len() && (#[trigger] cs[j]).listing(child_path(route, cs[j].route@)).contains(line),
        decreases cs.len(),
    {
        if cs.len() > 0 {
            let front = cs.drop_last();
            Self::lemma_children_listing_members(front, route, line);
            let a = Self::children_listing(front, route);
            let b = cs.last().listing(child_path(route, cs.last().route@));
            assert(Self::children_listing(cs, route) == a + b);
            if (a + b).contains(line) {
                let k = choose|k: int| 0 <= k < (a + b).len() && (a + b)[k] == line;
                if k < a.len() {
                    assert(a[k] == line);
                    let j = choose|j: int|
                        0 <= j < front.len() && (#[trigger] front[j]).listing(child_path(route, front[j].route@)).contains(line);
                    assert(cs[j] == front[j]);
                } else {
                    assert(b[k - a.len()] == line);
                    assert(cs[cs.len() - 1] == cs.last());
                }
            }
            if exists|j: int|
                0 <= j < cs.len() && (#[trigger] cs[j]).listing(child_path(route, cs[j].route@)).contains(line) {
                let j = choose|j: int|
                    0 <= j < cs.len() && (#[trigger] cs[j]).listing(child_path(route, cs[j].route@)).contains(line);
                if j < cs.len() - 1 {
                    assert(front[j] == cs[j]);
                    assert(a.contains(line));
                    let k = choose|k: int| 0 <= k < a.len() && a[k] == line;
                    assert((a + b)[k] == line);
                } else {
                    let k = choose|k: int| 0 <= k < b.len() && b[k] == line;
                    assert((a + b)[a.len() + k] == line);
                }
            }
        }
    }
}

/// The route listing shows every registered route, and nothing else: a line
/// is listed exactly when it is `"|<method>| /<path>"` for a registered
/// route, with the route's segments joined by `/` into the path.
pub proof fn lemma_listing_shows_routes<H>(r: Router<H>, route: Seq<char>, line: Seq<char>)
    requires
        r.wf(),
    ensures
        r.listing(route).contains(line) <==> exists|k: (Seq<Seq<char>>, MethodType)|
            r.table().contains_key(k) && line == route_line(k.1, pattern_path(route, k.0)),
    decreases r,
{
    lemma_method_slots();
    let t = r.table();
    let cs = r.children@;
    assert forall|i: int| 0 <= i < cs.len() implies ((#[trigger] cs[i]).listing(
        child_path(route, cs[i].route@),
    ).contains(line) <==> exists|k: (Seq<Seq<char>>, MethodType)|
        cs[i].table().contains_key(k) && line == route_line(
            k.1,
            pattern_path(child_path(route, cs[i].route@), k.0),
        )) by {
        assert(cs[i].wf());
        lemma_listing_shows_routes(cs[i], child_path(route, cs[i].route@), line);
    }
    Router::<H>::lemma_handler_lines_members(r.handlers@, route, 0, line);
    Router::<H>::lemma_children_listing_members(cs, route, line);
    let a = handler_lines(r.handlers@, route, 0);
    let b = Router::<H>::children_listing(cs, route);
    assert(r.listing(route) == a + b);
    assert((a + b).contains(line) <==> a.contains(line) || b.contains(line)) by {
        if (a + b).contains(line) {
            let k = choose|k: int| 0 <= k < (a + b).len() && (a + b)[k] == line;
            if k < a.len() {
                assert(a[k] == line);
            } else {
                assert(b[k - a.len()] == line);
            }
        }
        if a.contains(line) {
            let k = choose|k: int| 0 <= k < a.len() && a[k] == line;
            assert((a + b)[k] == line);
        }
        if b.contains(line) {
            let k = choose|k: int| 0 <= k < b.len() && b[k] == line;
            assert((a + b)[a.len() + k] == line);
        }
    }
    if r.listing(route).contains(line) {
        if a.contains(line) {
            let j = choose|j: nat|
                0 <= j < r.handlers@.len() && r.handlers@[j as int] is Some && line == route_line(
                    method_at_slot(j),
                    route,
                );
            let m = method_at_slot(j);
            let k = (Seq::<Seq<char>>::empty(), m);
            r.lemma_here(m);
            assert(t.contains_key(k));
            assert(pattern_path(route, k.0) == route);
        } else {
            let i = choose|i: int|
                0 <= i < cs.len() && (#[trigger] cs[i]).listing(child_path(route, cs[i].route@)).contains(line);
            let k2 = choose|k: (Seq<Seq<char>>, MethodType)|
                cs[i].table().contains_key(k) && line == route_line(
                    k.1,
                    pattern_path(child_path(route, cs[i].route@), k.0),
                );
            let key = (seq![cs[i].route@] + k2.0, k2.1);
            r.lemma_entry_child(i, k2.0, k2.1);
            assert(t.contains_key(key));
            assert(key.0[0] == cs[i].route@);
            assert(key.0.drop_first() =~= k2.0);
            assert(pattern_path(route, key.0) == pattern_path(child_path(route, cs[i].route@), k2.0));
        }
    }
    if exists|k: (Seq<Seq<char>>, MethodType)| t.contains_key(k) && line == route_line(k.1, pattern_path(route, k.0)) {
        let k = choose|k: (Seq<Seq<char>>, MethodType)| t.contains_key(k) && line == route_line(k.1, pattern_path(route, k.0));
        if k.0.len() == 0 {
            r.lemma_here(k.1);
            assert(k.0 =~= Seq::<Seq<char>>::empty());
            assert(r.handlers@[method_slot(k.1) as int] is Some);
            assert(method_at_slot(method_slot(k.1)) == k.1);
            assert(a.contains(line));
        } else {
            let s0 = k.0[0];
            r.lemma_branch(s0);
            assert(has_branch(t, s0));
            let i = r.child_index(s0);
            let q = k.0.drop_first();
            assert(k.0 =~= seq![s0] + q);
            r.lemma_entry_child(i, q, k.1);
            assert(cs[i].table().contains_key((q, k.1)));
            assert(pattern_path(route, k.0) == pattern_path(child_path(route, s0), q));
            assert(cs[i].listing(child_path(route, cs[i].route@)).contains(line));
            assert(b.contains(line));
        }
    }
}

/// No two registered routes that agree up to some depth have parameter
/// segments of different names at that depth.
pub open spec fn param_names_unique<H>(t: RouteTable<H>) -> bool {
    forall|k1: (Seq<Seq<char>>, MethodType), k2: (Seq<Seq<char>>, MethodType), i: int|
        #![trigger t.contains_key(k1), t.contains_key(k2), k1.0[i], k2.0[i]]
        t.contains_key(k1) && t.contains_key(k2) && 0 <= i < k1.0.len() && i < k2.0.len()
            && k1.0.take(i) == k2.0.take(i) && is_param_segment(k1.0[i]) && is_param_segment(k2.0[i])
            ==> k1.0[i] == k2.0[i]
}

impl<H> Router<H> {
    /// Two routes registered below a well-formed node that agree up to depth
    /// `i` and both have a parameter segment there have the same one.
    proof fn lemma_param_unique_at(self, p1: Seq<Seq<char>>, m1: MethodType, p2: Seq<Seq<char>>, m2: MethodType, i: int)
        requires
            self.wf(),
            self.entry(p1, m1) is Some,
            self.entry(p2, m2) is Some,
            0 <= i < p1.len(),
            i < p2.len(),
            p1.take(i) == p2.take(i),
            is_param_segment(p1[i]),
            is_param_segment(p2[i]),
        ensures
            p1[i] == p2[i],
        decreases i,
    {
        assert(self.has_child(p1[0]));
        assert(self.has_child(p2[0]));
        let a = self.child_index(p1[0]);
        let b = self.child_index(p2[0]);
        assert(self.children@[a].route@ == p1[0]);
        assert(self.children@[b].route@ == p2[0]);
        if i > 0 {
            assert(p1[0] == p1.take(i)[0]);
            assert(p2[0] == p2.take(i)[0]);
            let c = self.children@[a];
            assert(c.wf());
            assert(p1.drop_first().take(i - 1) =~= p2.drop_first().take(i - 1)) by {
                assert forall|j: int| 0 <= j < i - 1 implies p1.drop_first()[j] == p2.drop_first()[j] by {
                    assert(p1.take(i)[j + 1] == p2.take(i)[j + 1]);
                }
            }
            c.lemma_param_unique_at(p1.drop_first(), m1, p2.drop_first(), m2, i - 1);
        }
    }
}

/// The routes of a well-formed route tree never use two parameter names at
/// the same place: routes that agree up to some depth and have parameter
/// segments there have the same one.
pub proof fn lemma_routes_param_names_unique<H>(r: Router<H>)
    requires
        r.wf(),
    ensures
        param_names_unique(r.table()),
{
    let t = r.table();
    assert forall|k1: (Seq<Seq<char>>, MethodType), k2: (Seq<Seq<char>>, MethodType), i: int|
        t.contains_key(k1) && t.contains_key(k2) && 0 <= i < k1.0.len() && i < k2.0.len()
            && k1.0.take(i) == k2.0.take(i) && is_param_segment(k1.0[i]) && is_param_segment(k2.0[i])
        implies #[trigger] k1.0[i] == #[trigger] k2.0[i] by {
        r.lemma_param_unique_at(k1.0, k1.1, k2.0, k2.1, i);
    }
}

/// Routes `p1` and `p2` clash: they agree up to some depth and have
/// parameter segments of different names there.
pub open spec fn pair_conflict(p1: Seq<Seq<char>>, p2: Seq<Seq<char>>) -> bool
    decreases p1.len(),
{
    if p1.len() == 0 || p2.len() == 0 {
        false
    } else if is_param_segment(p1[0]) && is_param_segment(p2[0]) && p1[0] != p2[0] {
        true
    } else if p1[0] == p2[0] {
        pair_conflict(p1.drop_first(), p2.drop_first())
    } else {
        false
    }
}

/// Clashing is symmetric.
pub proof fn lemma_pair_conflict_symmetric(p1: Seq<Seq<char>>, p2: Seq<Seq<char>>)
    ensures
        pair_conflict(p1, p2) == pair_conflict(p2, p1),
    decreases p1.len(),
{
    if p1.len() > 0 && p2.len() > 0 && p1[0] == p2[0] {
        lemma_pair_conflict_symmetric(p1.drop_first(), p2.drop_first());
    }
}

/// After adding a route, a pattern continues with `x` where it did before
/// or where the added route starts with `x`.
proof fn lemma_insert_branch<H>(t: RouteTable<H>, q: Seq<Seq<char>>, n: MethodType, h: H, x: Seq<char>)
    ensures
        has_branch(t.insert((q, n), h), x) <==> has_branch(t, x) || (q.len() > 0 && q[0] == x),
{
    let t2 = t.insert((q, n), h);
    if has_branch(t2, x) {
        let k = choose|k: (Seq<Seq<char>>, MethodType)|
            #![trigger t2.contains_key(k)]
            t2.contains_key(k) && k.0.len() > 0 && k.0[0] == x;
        if k != (q, n) {
            assert(t.contains_key(k));
        }
    }
    if has_branch(t, x) {
        let k = choose|k: (Seq<Seq<char>>, MethodType)|
            #![trigger t.contains_key(k)]
            t.contains_key(k) && k.0.len() > 0 && k.0[0] == x;
        assert(t2.contains_key(k));
    }
    if q.len() > 0 && q[0] == x {
        assert(t2.contains_key((q, n)));
    }
}

/// After adding a route, another parameter name continues a pattern where
/// one did before or where the added route starts with one.
proof fn lemma_insert_other_param<H>(t: RouteTable<H>, q: Seq<Seq<char>>, n: MethodType, h: H, s: Seq<char>)
    ensures
        other_param_branch(t.insert((q, n), h), s) <==> other_param_branch(t, s) || (q.len() > 0
            && is_param_segment(q[0]) && q[0] != s),
{
    let t2 = t.insert((q, n), h);
    if other_param_branch(t2, s) {
        let p = choose|p: Seq<char>| is_param_segment(p) && p != s && #[trigger] has_branch(t2, p);
        lemma_insert_branch(t, q, n, h, p);
    }
    if other_param_branch(t, s) {
        let p = choose|p: Seq<char>| is_param_segment(p) && p != s && #[trigger] has_branch(t, p);
        lemma_insert_branch(t, q, n, h, p);
    }
    if q.len() > 0 && is_param_segment(q[0]) && q[0] != s {
        lemma_insert_branch(t, q, n, h, q[0]);
    }
}

/// After adding a route, the routes below `s` gain the rest of it where it
/// starts with `s`, and are unchanged otherwise.
proof fn lemma_insert_subtable<H>(t: RouteTable<H>, q: Seq<Seq<char>>, n: MethodType, h: H, s: Seq<char>)
    ensures
        q.len() > 0 && q[0] == s ==> subtable(t.insert((q, n), h), s) =~= subtable(t, s).insert(
            (q.drop_first(), n),
            h,
        ),
        !(q.len() > 0 && q[0] == s) ==> subtable(t.insert((q, n), h), s) =~= subtable(t, s),
{
    let t2 = t.insert((q, n), h);
    if q.len() > 0 && q[0] == s {
        assert(q =~= seq![s] + q.drop_first());
        assert forall|k: (Seq<Seq<char>>, MethodType)| #[trigger] subtable(t2, s).contains_key(k) implies
            subtable(t, s).insert((q.drop_first(), n), h).contains_key(k) by {
            if k != (q.drop_first(), n) {
                assert((seq![s] + k.0, k.1) != (q, n)) by {
                    if seq![s] + k.0 == q {
                        assert(k.0 =~= q.drop_first());
                    }
                }
            }
        }
        assert forall|k: (Seq<Seq<char>>, MethodType)| #[trigger] subtable(t2, s).contains_key(k) implies
            subtable(t2, s)[k] == subtable(t, s).insert((q.drop_first(), n), h)[k] by {
            if k != (q.drop_first(), n) {
                assert((seq![s] + k.0, k.1) != (q, n)) by {
                    if seq![s] + k.0 == q {
                        assert(k.0 =~= q.drop_first());
                    }
                }
            }
        }
    } else {
        assert forall|k: (Seq<Seq<char>>, MethodType)| #[trigger] subtable(t2, s).contains_key(k) implies
            subtable(t, s).contains_key(k) && subtable(t2, s)[k] == subtable(t, s)[k] by {
            assert((seq![s] + k.0, k.1) != (q, n)) by {
                if seq![s] + k.0 == q {
                    assert(q[0] == (seq![s] + k.0)[0]);
                }
            }
        }
    }
}

/// A route can be registered after another was added exactly when it could
/// be registered before, is not the added route, and does not clash with it.
pub proof fn lemma_register_after_insert<H>(
    t: RouteTable<H>,
    q: Seq<Seq<char>>,
    n: MethodType,
    h: H,
    m: MethodType,
    p: Seq<Seq<char>>,
)
    ensures
        register_conflict(t.insert((q, n), h), m, p) is None <==> (register_conflict(t, m, p) is None
            && (p, m) != (q, n) && !pair_conflict(p, q)),
    decreases p.len(),
{
    let t2 = t.insert((q, n), h);
    if p.len() == 0 {
        assert(p =~= Seq::<Seq<char>>::empty());
        if q.len() == 0 {
            assert(q =~= Seq::<Seq<char>>::empty());
        }
    } else {
        let s = p[0];
        lemma_insert_other_param(t, q, n, h, s);
        if is_param_segment(s) && other_param_branch(t, s) {
            assert(register_conflict(t2, m, p) is Some);
            assert(register_conflict(t, m, p) is Some);
        } else if is_param_segment(s) && q.len() > 0 && is_param_segment(q[0]) && q[0] != s {
            assert(register_conflict(t2, m, p) is Some);
            assert(pair_conflict(p, q));
        } else {
            lemma_insert_subtable(t, q, n, h, s);
            assert(p =~= seq![s] + p.drop_first());
            if q.len() > 0 && q[0] == s {
                assert(q =~= seq![s] + q.drop_first());
                lemma_register_after_insert(subtable(t, s), q.drop_first(), n, h, m, p.drop_first());
                assert((p, m) == (q, n) <==> (p.drop_first(), m) == (q.drop_first(), n));
            } else {
                assert((p, m) != (q, n));
            }
        }
    }
}

/// Registering two routes one after the other succeeds in one order exactly
/// when it succeeds in the other, and then both orders give the same routes.
pub proof fn lemma_registration_order<H>(
    t: RouteTable<H>,
    p1: Seq<Seq<char>>,
    m1: MethodType,
    h1: H,
    p2: Seq<Seq<char>>,
    m2: MethodType,
    h2: H,
)
    ensures
        (can_register(t, m1, p1) && can_register(t.insert((p1, m1), h1), m2, p2)) <==> (can_register(
            t,
            m2,
            p2,
        ) && can_register(t.insert((p2, m2), h2), m1, p1)),
        can_register(t, m1, p1) && can_register(t.insert((p1, m1), h1), m2, p2) ==> t.insert(
            (p1, m1),
            h1,
        ).insert((p2, m2), h2) == t.insert((p2, m2), h2).insert((p1, m1), h1),
{
    lemma_register_after_insert(t, p1, m1, h1, m2, p2);
    lemma_register_after_insert(t, p2, m2, h2, m1, p1);
    lemma_pair_conflict_symmetric(p1, p2);
    if can_register(t, m1, p1) && can_register(t.insert((p1, m1), h1), m2, p2) {
        assert(t.insert((p1, m1), h1).insert((p2, m2), h2) =~= t.insert((p2, m2), h2).insert((p1, m1), h1));
    }
}

/// Route `k1` is listed before route `k2`: a route comes before the routes
/// below it, routes below different segments come in the order of those
/// segments, and routes at the same place in the order of their methods.
pub open spec fn key_before(k1: (Seq<Seq<char>>, MethodType), k2: (Seq<Seq<char>>, MethodType)) -> bool
    decreases k1.0.len(),
{
    if k1.0.len() == 0 {
        k2.0.len() > 0 || method_slot(k1.1) < method_slot(k2.1)
    } else if k2.0.len() == 0 {
        false
    } else if k1.0[0] == k2.0[0] {
        key_before((k1.0.drop_first(), k1.1), (k2.0.drop_first(), k2.1))
    } else {
        seq_less(k1.0[0], k2.0[0])
    }
}

/// The routes `ks` come strictly in listing order.
pub open spec fn in_route_order(ks: Seq<(Seq<Seq<char>>, MethodType)>) -> bool {
    forall|i: int, j: int| 0 <= i < j < ks.len() ==> key_before(#[trigger] ks[i], #[trigger] ks[j])
}

/// No route is listed before itself.
proof fn lemma_key_before_irreflexive(k: (Seq<Seq<char>>, MethodType))
    ensures
        !key_before(k, k),
    decreases k.0.len(),
{
    if k.0.len() > 0 {
        lemma_key_before_irreflexive((k.0.drop_first(), k.1));
    }
}

/// The listing order is transitive.
proof fn lemma_key_before_transitive(
    a: (Seq<Seq<char>>, MethodType),
    b: (Seq<Seq<char>>, MethodType),
    c: (Seq<Seq<char>>, MethodType),
)
    requires
        key_before(a, b),
        key_before(b, c),
    ensures
        key_before(a, c),
    decreases a.0.len(),
{
    if a.0.len() > 0 {
        let (a0, b0, c0) = (a.0[0], b.0[0], c.0[0]);
        if a0 == b0 && b0 == c0 {
            lemma_key_before_transitive(
                (a.0.drop_first(), a.1),
                (b.0.drop_first(), b.1),
                (c.0.drop_first(), c.1),
            );
        } else if a0 == b0 {
        } else if b0 == c0 {
        } else {
            lemma_seq_less_transitive(a0, b0, c0);
            lemma_seq_less_total(a0, b0);
        }
    }
}

/// Two sequences of routes, each strictly in listing order, that hold the
/// same routes are the same sequence.
proof fn lemma_route_order_unique(ks1: Seq<(Seq<Seq<char>>, MethodType)>, ks2: Seq<(Seq<Seq<char>>, MethodType)>)
    requires
        in_route_order(ks1),
        in_route_order(ks2),
        forall|k: (Seq<Seq<char>>, MethodType)| ks1.contains(k) <==> ks2.contains(k),
    ensures
        ks1 == ks2,
    decreases ks1.len(),
{
    if ks1.len() == 0 {
        if ks2.len() > 0 {
            assert(ks2.contains(ks2[0]));
        }
        assert(ks1 =~= ks2);
    } else {
        assert(ks1.contains(ks1[0]));
        let a = choose|a: int| 0 <= a < ks2.len() && ks2[a] == ks1[0];
        assert(ks2.contains(ks2[0]));
        let b = choose|b: int| 0 <= b < ks1.len() && ks1[b] == ks2[0];
        lemma_key_before_irreflexive(ks1[0]);
        if a > 0 {
            assert(key_before(ks2[0], ks2[a]));
            if b > 0 {
                assert(key_before(ks1[0], ks1[b]));
                lemma_key_before_transitive(ks1[0], ks1[b], ks1[0]);
            }
        }
        assert(a == 0);
        let r1 = ks1.drop_first();
        let r2 = ks2.drop_first();
        assert forall|k: (Seq<Seq<char>>, MethodType)| r1.contains(k) <==> r2.contains(k) by {
            if r1.contains(k) {
                let i = choose|i: int| 0 <= i < r1.len() && r1[i] == k;
                assert(ks1[i + 1] == k);
                assert(key_before(ks1[0], ks1[i + 1]));
                assert(ks2.contains(k));
                let j = choose|j: int| 0 <= j < ks2.len() && ks2[j] == k;
                if j == 0 {
                    lemma_key_before_irreflexive(k);
                }
                assert(r2[j - 1] == k);
            }
            if r2.contains(k) {
                let i = choose|i: int| 0 <= i < r2.len() && r2[i] == k;
                assert(ks2[i + 1] == k);
                assert(key_before(ks2[0], ks2[i + 1]));
                assert(ks1.contains(k));
                let j = choose|j: int| 0 <= j < ks1.len() && ks1[j] == k;
                if j == 0 {
                    lemma_key_before_irreflexive(k);
                }
                assert(r1[j - 1] == k);
            }
        }
        assert(in_route_order(r1)) by {
            assert forall|i: int, j: int| 0 <= i < j < r1.len() implies key_before(#[trigger] r1[i], #[trigger] r1[j]) by {
                assert(r1[i] == ks1[i + 1] && r1[j] == ks1[j + 1]);
            }
        }
        assert(in_route_order(r2)) by {
            assert forall|i: int, j: int| 0 <= i < j < r2.len() implies key_before(#[trigger] r2[i], #[trigger] r2[j]) by {
                assert(r2[i] == ks2[i + 1] && r2[j] == ks2[j + 1]);
            }
        }
        lemma_route_order_unique(r1, r2);
        assert(ks1 =~= ks2) by {
            assert forall|i: int| 0 <= i < ks1.len() implies ks1[i] == ks2[i] by {
                if i > 0 {
                    assert(ks1[i] == r1[i - 1]);
                    assert(ks2[i] == r2[i - 1]);
                }
            }
        }
    }
}

/// Two runs in listing order, each route of the first listed before each
/// route of the second, make one run in listing order.
proof fn lemma_route_order_concat(a: Seq<(Seq<Seq<char>>, MethodType)>, b: Seq<(Seq<Seq<char>>, MethodType)>)
    requires
        in_route_order(a),
        in_route_order(b),
        forall|i: int, j: int| 0 <= i < a.len() && 0 <= j < b.len() ==> key_before(#[trigger] a[i], #[trigger] b[j]),
    ensures
        in_route_order(a + b),
{
    let c = a + b;
    assert forall|i: int, j: int| 0 <= i < j < c.len() implies key_before(#[trigger] c[i], #[trigger] c[j]) by {
        if j < a.len() {
            assert(c[i] == a[i] && c[j] == a[j]);
        } else if i >= a.len() {
            assert(c[i] == b[i - a.len()] && c[j] == b[j - a.len()]);
        } else {
            assert(c[i] == a[i] && c[j] == b[j - a.len()]);
        }
    }
}

/// The routes `ks` with `s` put in front of each pattern.
pub open spec fn routes_below(s: Seq<char>, ks: Seq<(Seq<Seq<char>>, MethodType)>) -> Seq<(Seq<Seq<char>>, MethodType)> {
    ks.map_values(|k: (Seq<Seq<char>>, MethodType)| (seq![s] + k.0, k.1))
}

/// The listing lines of the routes `ks` below the path `route`, one each.
pub open spec fn route_lines(ks: Seq<(Seq<Seq<char>>, MethodType)>, route: Seq<char>) -> Seq<Seq<char>> {
    ks.map_values(|k: (Seq<Seq<char>>, MethodType)| route_line(k.1, pattern_path(route, k.0)))
}

/// `lines` lists the routes of `t` below the path `route`: one line for each
/// route, and the routes strictly in listing order.
pub open spec fn lists_in_route_order<H>(lines: Seq<Seq<char>>, t: RouteTable<H>, route: Seq<char>) -> bool {
    exists|ks: Seq<(Seq<Seq<char>>, MethodType)>|
        #[trigger] route_lines(ks, route) == lines && in_route_order(ks) && forall|k: (Seq<Seq<char>>, MethodType)|
            ks.contains(k) <==> t.contains_key(k)
}

/// The routes that end at slots `i` and on of the handlers `hs`, in slot order.
pub open spec fn here_routes<H>(hs: Seq<Option<H>>, i: nat) -> Seq<(Seq<Seq<char>>, MethodType)>
    decreases hs.len() - i,
{
    if i >= hs.len() {
        Seq::empty()
    } else {
        (if hs[i as int] is Some {
            seq![(Seq::<Seq<char>>::empty(), method_at_slot(i))]
        } else {
            Seq::empty()
        }) + here_routes(hs, i + 1)
    }
}

impl<H> Router<H> {
    /// The routes registered below this node, in the order of its listing.
    pub closed spec fn listed_routes(self) -> Seq<(Seq<Seq<char>>, MethodType)>
        decreases self,
    {
        here_routes(self.handlers@, 0) + Self::children_routes(self.children@)
    }

    /// The listed routes of `cs`, each below its segment, one after the other.
    pub closed spec fn children_routes(cs: Seq<Router<H>>) -> Seq<(Seq<Seq<char>>, MethodType)>
        decreases cs,
    {
        if cs.len() == 0 {
            Seq::empty()
        } else {
            Self::children_routes(cs.drop_last()) + routes_below(cs.last().route@, cs.last().listed_routes())
        }
    }
}

/// The handler lines are the lines of the routes that end at the node, in
/// slot order, each with its own method.
proof fn lemma_here_routes<H>(hs: Seq<Option<H>>, route: Seq<char>, i: nat)
    requires
        hs.len() == METHOD_COUNT,
    ensures
        handler_lines(hs, route, i) == route_lines(here_routes(hs, i), route),
        in_route_order(here_routes(hs, i)),
        forall|x: int|
            0 <= x < here_routes(hs, i).len() ==> (#[trigger] here_routes(hs, i)[x]).0.len() == 0
                && method_slot(here_routes(hs, i)[x].1) >= i,
        forall|k: (Seq<Seq<char>>, MethodType)|
            here_routes(hs, i).contains(k) <==> (k.0 == Seq::<Seq<char>>::empty() && i <= method_slot(k.1)
                && hs[method_slot(k.1) as int] is Some),
    decreases hs.len() - i,
{
    lemma_method_slots();
    if i >= hs.len() {
        assert(route_lines(here_routes(hs, i), route) =~= Seq::<Seq<char>>::empty());
    } else {
        lemma_here_routes(hs, route, i + 1);
        let k0 = (Seq::<Seq<char>>::empty(), method_at_slot(i));
        let here: Seq<(Seq<Seq<char>>, MethodType)> = if hs[i as int] is Some {
            seq![k0]
        } else {
            Seq::empty()
        };
        let rest = here_routes(hs, i + 1);
        assert(here_routes(hs, i) == here + rest);
        assert(pattern_path(route, k0.0) == route);
        assert(route_lines(here + rest, route) =~= route_lines(here, route) + route_lines(rest, route));
        assert(handler_lines(hs, route, i) == route_lines(here, route) + route_lines(rest, route)) by {
            if hs[i as int] is Some {
                assert(route_lines(here, route) =~= seq![route_line(method_at_slot(i), route)]);
            } else {
                assert(route_lines(here, route) =~= Seq::<Seq<char>>::empty());
            }
        }
        assert forall|x: int, y: int| 0 <= x < here.len() && 0 <= y < rest.len() implies key_before(
            #[trigger] here[x],
            #[trigger] rest[y],
        ) by {
            assert(method_slot(rest[y].1) >= i + 1);
        }
        lemma_route_order_concat(here, rest);
        assert forall|x: int|
            0 <= x < (here + rest).len() implies (#[trigger] (here + rest)[x]).0.len() == 0 && method_slot(
            (here + rest)[x].1,
        ) >= i by {
            if x >= here.len() {
                assert((here + rest)[x] == rest[x - here.len()]);
            }
        }
        assert forall|k: (Seq<Seq<char>>, MethodType)|
            (here + rest).contains(k) <==> (k.0 == Seq::<Seq<char>>::empty() && i <= method_slot(k.1)
                && hs[method_slot(k.1) as int] is Some) by {
            if (here + rest).contains(k) {
                let x = choose|x: int| 0 <= x < (here + rest).len() && (here + rest)[x] == k;
                if x >= here.len() {
                    assert(rest[x - here.len()] == k);
                    assert(rest.contains(k));
                }
            }
            if k.0 == Seq::<Seq<char>>::empty() && i <= method_slot(k.1) && hs[method_slot(k.1) as int] is Some {
                if method_slot(k.1) == i {
                    assert(k == k0);
                    assert((here + rest)[0] == k);
                } else {
                    assert(rest.contains(k));
                    let y = choose|y: int| 0 <= y < rest.len() && rest[y] == k;
                    assert((here + rest)[here.len() + y] == k);
                }
            }
        }
    }
}

/// Putting the same segment in front of two routes keeps their order.
proof fn lemma_key_before_below(s: Seq<char>, a: (Seq<Seq<char>>, MethodType), b: (Seq<Seq<char>>, MethodType))
    ensures
        key_before((seq![s] + a.0, a.1), (seq![s] + b.0, b.1)) == key_before(a, b),
{
    assert((seq![s] + a.0).drop_first() =~= a.0);
    assert((seq![s] + b.0).drop_first() =~= b.0);
}

/// The path shown for a route below segment `s` is that of the rest of the
/// route below the child path for `s`.
proof fn lemma_pattern_path_below(route: Seq<char>, s: Seq<char>, q: Seq<Seq<char>>)
    ensures
        pattern_path(route, seq![s] + q) == pattern_path(child_path(route, s), q),
{
    assert((seq![s] + q).drop_first() =~= q);
}

/// The children's listings are the lines of the children's routes, and
/// those come in listing order when each child's do and the children are
/// sorted by segment.
proof fn lemma_children_routes<H>(cs: Seq<Router<H>>, route: Seq<char>)
    requires
        forall|j: int|
            0 <= j < cs.len() ==> (#[trigger] cs[j]).listing(child_path(route, cs[j].route@)) == route_lines(
                cs[j].listed_routes(),
                child_path(route, cs[j].route@),
            ) && in_route_order(cs[j].listed_routes()),
        forall|i: int, j: int| 0 <= i < j < cs.len() ==> seq_less(#[trigger] cs[i].route@, #[trigger] cs[j].route@),
    ensures
        Router::<H>::children_listing(cs, route) == route_lines(Router::<H>::children_routes(cs), route),
        in_route_order(Router::<H>::children_routes(cs)),
        forall|x: int|
            0 <= x < Router::<H>::children_routes(cs).len() ==> exists|j: int|
                0 <= j < cs.len() && (#[trigger] Router::<H>::children_routes(cs)[x]).0.len() > 0
                    && Router::<H>::children_routes(cs)[x].0[0] == (#[trigger] cs[j]).route@
                    && cs[j].listed_routes().contains(
                    (Router::<H>::children_routes(cs)[x].0.drop_first(), Router::<H>::children_routes(cs)[x].1),
                ),
        forall|j: int, k: (Seq<Seq<char>>, MethodType)|
            0 <= j < cs.len() && (#[trigger] cs[j]).listed_routes().contains(k) ==> #[trigger] Router::<
                H,
            >::children_routes(cs).contains((seq![cs[j].route@] + k.0, k.1)),
    decreases cs.len(),
{
    if cs.len() == 0 {
        assert(route_lines(Router::<H>::children_routes(cs), route) =~= Seq::<Seq<char>>::empty());
    } else {
        let front = cs.drop_last();
        let last = cs.last();
        assert(last == cs[cs.len() - 1]);
        lemma_children_routes(front, route);
        let a = Router::<H>::children_routes(front);
        let s = last.route@;
        let lk = last.listed_routes();
        let b = routes_below(s, lk);
        assert(Router::<H>::children_routes(cs) == a + b);
        assert(Router::<H>::children_listing(cs, route) == Router::<H>::children_listing(front, route) + last.listing(
            child_path(route, s),
        ));
        assert(route_lines(b, route) =~= route_lines(lk, child_path(route, s))) by {
            assert forall|x: int| 0 <= x < lk.len() implies route_lines(b, route)[x] == route_lines(
                lk,
                child_path(route, s),
            )[x] by {
                lemma_pattern_path_below(route, s, lk[x].0);
            }
        }
        assert(route_lines(a + b, route) =~= route_lines(a, route) + route_lines(b, route));
        assert(in_route_order(b)) by {
            assert forall|x: int, y: int| 0 <= x < y < b.len() implies key_before(#[trigger] b[x], #[trigger] b[y]) by {
                lemma_key_before_below(s, lk[x], lk[y]);
            }
        }
        assert forall|x: int, y: int| 0 <= x < a.len() && 0 <= y < b.len() implies key_before(
            #[trigger] a[x],
            #[trigger] b[y],
        ) by {
            let j = choose|j: int|
                0 <= j < front.len() && (#[trigger] a[x]).0.len() > 0 && a[x].0[0] == (#[trigger] front[j]).route@
                    && front[j].listed_routes().contains((a[x].0.drop_first(), a[x].1));
            assert(front[j] == cs[j]);
            assert(seq_less(cs[j].route@, cs[cs.len() - 1].route@));
            lemma_seq_less_irreflexive(s);
            assert(b[y].0[0] == s);
        }
        lemma_route_order_concat(a, b);
        assert forall|x: int| 0 <= x < (a + b).len() implies exists|j: int|
            0 <= j < cs.len() && (#[trigger] (a + b)[x]).0.len() > 0 && (a + b)[x].0[0] == (#[trigger] cs[j]).route@
                && cs[j].listed_routes().contains(((a + b)[x].0.drop_first(), (a + b)[x].1)) by {
            if x < a.len() {
                assert((a + b)[x] == a[x]);
                let j = choose|j: int|
                    0 <= j < front.len() && (#[trigger] a[x]).0.len() > 0 && a[x].0[0] == (#[trigger] front[j]).route@
                        && front[j].listed_routes().contains((a[x].0.drop_first(), a[x].1));
                assert(front[j] == cs[j]);
            } else {
                let y = x - a.len();
                assert((a + b)[x] == b[y]);
                assert(b[y].0.drop_first() =~= lk[y].0);
                assert(lk.contains(lk[y]));
                assert(cs[cs.len() - 1] == last);
            }
        }
        assert forall|j: int, k: (Seq<Seq<char>>, MethodType)|
            0 <= j < cs.len() && (#[trigger] cs[j]).listed_routes().contains(k) implies #[trigger] (a + b).contains(
            (seq![cs[j].route@] + k.0, k.1),
        ) by {
            let key = (seq![cs[j].route@] + k.0, k.1);
            if j < cs.len() - 1 {
                assert(front[j] == cs[j]);
                assert(a.contains(key));
                let x = choose|x: int| 0 <= x < a.len() && a[x] == key;
                assert((a + b)[x] == key);
            } else {
                let y = choose|y: int| 0 <= y < lk.len() && lk[y] == k;
                assert(b[y] == key);
                assert((a + b)[a.len() + y] == key);
            }
        }
    }
}

impl<H> Router<H> {
    /// The listing of a well-formed node is the lines of its listed routes,
    /// which come strictly in listing order and are exactly its routes.
    proof fn lemma_listed_routes(self, route: Seq<char>)
        requires
            self.wf(),
        ensures
            self.listing(route) == route_lines(self.listed_routes(), route),
            in_route_order(self.listed_routes()),
            forall|k: (Seq<Seq<char>>, MethodType)| self.listed_routes().contains(k) <==> self.table().contains_key(k),
        decreases self,
    {
        lemma_method_slots();
        let cs = self.children@;
        let hs = self.handlers@;
        assert forall|j: int| 0 <= j < cs.len() implies (#[trigger] cs[j]).listing(child_path(route, cs[j].route@))
            == route_lines(cs[j].listed_routes(), child_path(route, cs[j].route@)) && in_route_order(
            cs[j].listed_routes(),
        ) && forall|k: (Seq<Seq<char>>, MethodType)| cs[j].listed_routes().contains(k) <==> cs[j].table().contains_key(k) by {
            assert(cs[j].wf());
            cs[j].lemma_listed_routes(child_path(route, cs[j].route@));
        }
        lemma_here_routes(hs, route, 0);
        lemma_children_routes(cs, route);
        let a = here_routes(hs, 0);
        let b = Self::children_routes(cs);
        let t = self.table();
        assert(self.listed_routes() == a + b);
        assert(route_lines(a + b, route) =~= route_lines(a, route) + route_lines(b, route));
        assert forall|x: int, y: int| 0 <= x < a.len() && 0 <= y < b.len() implies key_before(
            #[trigger] a[x],
            #[trigger] b[y],
        ) by {
            assert(a[x].0.len() == 0);
            let j = choose|j: int|
                0 <= j < cs.len() && (#[trigger] b[y]).0.len() > 0 && b[y].0[0] == (#[trigger] cs[j]).route@
                    && cs[j].listed_routes().contains((b[y].0.drop_first(), b[y].1));
        }
        lemma_route_order_concat(a, b);
        assert forall|k: (Seq<Seq<char>>, MethodType)| (a + b).contains(k) <==> t.contains_key(k) by {
            if (a + b).contains(k) {
                let x = choose|x: int| 0 <= x < (a + b).len() && (a + b)[x] == k;
                if x < a.len() {
                    assert(a[x] == k);
                    assert(a.contains(k));
                    self.lemma_here(k.1);
                } else {
                    let y = x - a.len();
                    assert(b[y] == k);
                    let j = choose|j: int|
                        0 <= j < cs.len() && (#[trigger] b[y]).0.len() > 0 && b[y].0[0] == (#[trigger] cs[j]).route@
                            && cs[j].listed_routes().contains((b[y].0.drop_first(), b[y].1));
                    let q = k.0.drop_first();
                    assert(cs[j].table().contains_key((q, k.1)));
                    self.lemma_entry_child(j, q, k.1);
                    assert(k.0 =~= seq![cs[j].route@] + q);
                }
            }
            if t.contains_key(k) {
                if k.0.len() == 0 {
                    assert(k.0 =~= Seq::<Seq<char>>::empty());
                    self.lemma_here(k.1);
                    assert(a.contains(k));
                    let x = choose|x: int| 0 <= x < a.len() && a[x] == k;
                    assert((a + b)[x] == k);
                } else {
                    let s0 = k.0[0];
                    let q = k.0.drop_first();
                    assert(k.0 =~= seq![s0] + q);
                    self.lemma_branch(s0);
                    assert(has_branch(t, s0));
                    let j = self.child_index(s0);
                    self.lemma_entry_child(j, q, k.1);
                    assert(cs[j].table().contains_key((q, k.1)));
                    assert(cs[j].listed_routes().contains((q, k.1)));
                    assert(b.contains((seq![cs[j].route@] + q, k.1)));
                    let y = choose|y: int| 0 <= y < b.len() && b[y] == k;
                    assert((a + b)[a.len() + y] == k);
                }
            }
        }
    }
}

/// The route listing has exactly one line for each registered route, and
/// the routes come in listing order: a route before the routes below it,
/// routes below different segments in the order of those segments, and the
/// routes at one place in the order of their methods.
pub proof fn lemma_listing_in_route_order<H>(r: Router<H>, route: Seq<char>)
    requires
        r.wf(),
    ensures
        lists_in_route_order(r.listing(route), r.table(), route),
{
    r.lemma_listed_routes(route);
    assert(route_lines(r.listed_routes(), route) == r.listing(route));
}

/// The listing depends on the registered routes alone: two well-formed route
/// trees with the same routes list them alike.
pub proof fn lemma_listing_determined_by_routes<H>(r1: Router<H>, r2: Router<H>, route: Seq<char>)
    requires
        r1.wf(),
        r2.wf(),
        r1.table() == r2.table(),
    ensures
        r1.listing(route) == r2.listing(route),
{
    r1.lemma_listed_routes(route);
    r2.lemma_listed_routes(route);
    lemma_route_order_unique(r1.listed_routes(), r2.listed_routes());
}

} // verus!
