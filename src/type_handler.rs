//! Type sets and the arena of nested scopes that binds names to them.
use vstd::prelude::*;

verus! {

/// A primitive value type.
#[derive(Clone, Copy, Debug, PartialEq, Eq, Structural)]
pub enum Type {
    Int,
    Float,
    Str,
}

impl Type {
    pub open spec fn name_spec(self) -> Seq<char> {
        match self {
            Type::Int => "int"@,
            Type::Float => "float"@,
            Type::Str => "string"@,
        }
    }

    pub fn name(&self) -> (r: &'static str)
        ensures
            r@ == self.name_spec(),
    {
        match self {
            Type::Int => "int",
            Type::Float => "float",
            Type::Str => "string",
        }
    }
}

/// A set of candidate types; the empty set marks a value of no usable type.
#[derive(Clone, Copy, Debug, PartialEq, Eq, Structural)]
pub struct TypeCollection {
    has_int: bool,
    has_float: bool,
    has_str: bool,
}

pub open spec fn type_set(has_int: bool, has_float: bool, has_str: bool) -> Set<Type> {
    Set::new(
        |t: Type|
            match t {
                Type::Int => has_int,
                Type::Float => has_float,
                Type::Str => has_str,
            },
    )
}

/// The names of the types in `s`, in the order int, float, string.
pub open spec fn type_names(s: Set<Type>) -> Seq<Seq<char>> {
    (if s.contains(Type::Int) {
        seq!["int"@]
    } else {
        Seq::empty()
    }) + (if s.contains(Type::Float) {
        seq!["float"@]
    } else {
        Seq::empty()
    }) + (if s.contains(Type::Str) {
        seq!["string"@]
    } else {
        Seq::empty()
    })
}

/// Names joined as in "a, b or c".
pub open spec fn join_names(names: Seq<Seq<char>>) -> Seq<char>
    decreases names.len(),
{
    if names.len() == 0 {
        Seq::empty()
    } else if names.len() == 1 {
        names[0]
    } else if names.len() == 2 {
        names[0] + " or "@ + names[1]
    } else {
        names[0] + ", "@ + join_names(names.drop_first())
    }
}

/// How a type set reads: "undef" when empty, else its types joined.
pub open spec fn types_text(s: Set<Type>) -> Seq<char> {
    if s.is_empty() {
        "undef"@
    } else {
        join_names(type_names(s))
    }
}

/// What narrowing `current` by `other` leaves: `other` where nothing was known, else the intersection.
pub open spec fn constrained(current: Set<Type>, other: Set<Type>) -> Set<Type> {
    if current.is_empty() {
        other
    } else {
        current.intersect(other)
    }
}

impl View for TypeCollection {
    type V = Set<Type>;

    closed spec fn view(&self) -> Set<Type> {
        type_set(self.has_int, self.has_float, self.has_str)
    }
}

impl TypeCollection {
    proof fn lemma_view(&self)
        ensures
            self@.contains(Type::Int) == self.has_int,
            self@.contains(Type::Float) == self.has_float,
            self@.contains(Type::Str) == self.has_str,
            self@.is_empty() == (!self.has_int && !self.has_float && !self.has_str),
            self@.finite(),
    {
        if !self.has_int && !self.has_float && !self.has_str {
            assert(self@ =~= Set::empty());
        } else if self.has_int {
            assert(self@.contains(Type::Int));
        } else if self.has_float {
            assert(self@.contains(Type::Float));
        } else {
            assert(self@.contains(Type::Str));
        }
        assert(self@ =~= Set::empty().insert(Type::Int).insert(Type::Float).insert(Type::Str).filter(
            |t: Type| self@.contains(t),
        ));
    }

    pub fn from(types: Vec<Type>) -> (r: TypeCollection)
        ensures
            r@ == types@.to_set(),
    {
        let mut r = TypeCollection { has_int: false, has_float: false, has_str: false };
        let mut i: usize = 0;
        while i < types.len()
            invariant
                i <= types@.len(),
                forall|t: Type| r@.contains(t) <==> types@.subrange(0, i as int).contains(t),
            decreases types@.len() - i,
        {
            let ghost r0 = r;
            match types[i] {
                Type::Int => r.has_int = true,
                Type::Float => r.has_float = true,
                Type::Str => r.has_str = true,
            }
            proof {
                r.lemma_view();
                r0.lemma_view();
                let pre = types@.subrange(0, i as int);
                let post = types@.subrange(0, i + 1);
                assert(post =~= pre.push(types@[i as int]));
                assert forall|t: Type| r@.contains(t) <==> post.contains(t) by {
                    if post.contains(t) {
                        let k = choose|k: int| 0 <= k < post.len() && post[k] == t;
                        if k < i {
                            assert(pre[k] == t);
                        }
                    }
                    if pre.contains(t) {
                        let k = choose|k: int| 0 <= k < pre.len() && pre[k] == t;
                        assert(post[k] == t);
                    }
                    assert(post[i as int] == types@[i as int]);
                }
            }
            i = i + 1;
        }
        proof {
            assert(types@.subrange(0, i as int) =~= types@);
            assert(r@ =~= types@.to_set());
        }
        r
    }

    pub fn undef() -> (r: TypeCollection)
        ensures
            r@ == Set::<Type>::empty(),
    {
        let r = TypeCollection { has_int: false, has_float: false, has_str: false };
        proof {
            assert(r@ =~= Set::<Type>::empty());
        }
        r
    }

    pub fn is_undef(&self) -> (r: bool)
        ensures
            r == self@.is_empty(),
    {
        proof {
            self.lemma_view();
        }
        !self.has_int && !self.has_float && !self.has_str
    }

    pub fn contains(&self, t: Type) -> (r: bool)
        ensures
            r == self@.contains(t),
    {
        match t {
            Type::Int => self.has_int,
            Type::Float => self.has_float,
            Type::Str => self.has_str,
        }
    }

    /// Narrows this set by `other`; an empty set takes `other` as it is.
    pub fn constrain(&mut self, other: &TypeCollection)
        ensures
            final(self)@ == constrained(old(self)@, other@),
    {
        proof {
            self.lemma_view();
        }
        if self.is_undef() {
            *self = *other;
        } else {
            self.has_int = self.has_int && other.has_int;
            self.has_float = self.has_float && other.has_float;
            self.has_str = self.has_str && other.has_str;
            proof {
                assert(self@ =~= old(self)@.intersect(other@));
            }
        }
    }

    /// The first of int, float and string that the set holds.
    pub fn collapse(&self) -> (r: Option<Type>)
        ensures
            r == if self@.contains(Type::Int) {
                Some(Type::Int)
            } else if self@.contains(Type::Float) {
                Some(Type::Float)
            } else if self@.contains(Type::Str) {
                Some(Type::Str)
            } else {
                None::<Type>
            },
    {
        if self.has_int {
            Some(Type::Int)
        } else if self.has_float {
            Some(Type::Float)
        } else if self.has_str {
            Some(Type::Str)
        } else {
            None
        }
    }

    /// Appends how the set reads: "undef", or its types as in "int or float".
    pub fn write_text(&self, out: &mut String)
        ensures
            final(out)@ == old(out)@ + types_text(self@),
    {
        proof {
            self.lemma_view();
        }
        let mut names: Vec<&'static str> = Vec::new();
        if self.has_int {
            names.push("int");
        }
        if self.has_float {
            names.push("float");
        }
        if self.has_str {
            names.push("string");
        }
        let ghost want = type_names(self@);
        proof {
            assert(names@.map_values(|s: &str| s@) =~= want);
        }
        if names.len() == 0 {
            proof {
                assert(self@.is_empty());
            }
            out.append("undef");
        } else if names.len() == 1 {
            out.append(names[0]);
        } else if names.len() == 2 {
            out.append(names[0]);
            out.append(" or ");
            out.append(names[1]);
        } else {
            out.append(names[0]);
            out.append(", ");
            out.append(names[1]);
            out.append(" or ");
            out.append(names[2]);
            proof {
                assert(names@[0]@ == want[0] && names@[1]@ == want[1] && names@[2]@ == want[2]);
                assert(want.drop_first()[0] == want[1] && want.drop_first()[1] == want[2]);
                assert(join_names(want.drop_first()) == want[1] + " or "@ + want[2]);
                assert(old(out)@ + types_text(self@) =~= old(out)@ + names[0]@ + ", "@ + names[1]@ + " or "@ + names[2]@);
            }
        }
    }
}

/// Bindings of one scope, as names and type sets, in the order they were made.
pub type Members = Seq<(Seq<char>, Set<Type>)>;

/// A scope seen as values.
pub struct ScopeView {
    pub id: int,
    pub parent: Option<int>,
    pub members: Members,
}

pub open spec fn has_name(ms: Members, name: Seq<char>) -> bool {
    exists|i: int| 0 <= i < ms.len() && ms[i].0 == name
}

/// The position of `name` among the bindings, where it is bound.
pub open spec fn name_index(ms: Members, name: Seq<char>) -> int {
    choose|i: int| 0 <= i < ms.len() && ms[i].0 == name
}

pub open spec fn names_unique(ms: Members) -> bool {
    forall|i: int, j: int| 0 <= i < j < ms.len() ==> ms[i].0 != ms[j].0
}

/// The bindings after binding `name` to `t`: an existing binding is replaced in place, a new one goes last.
pub open spec fn with_binding(ms: Members, name: Seq<char>, t: Set<Type>) -> Members {
    if has_name(ms, name) {
        ms.update(name_index(ms, name), (name, t))
    } else {
        ms.push((name, t))
    }
}

/// Every scope knows its own id, a parent is older than its child, and no scope binds a name twice.
pub open spec fn pool_wf(p: Seq<ScopeView>) -> bool {
    forall|i: int|
        0 <= i < p.len() ==> {
            &&& #[trigger] p[i].id == i
            &&& (p[i].parent matches Some(q) ==> 0 <= q < i)
            &&& names_unique(p[i].members)
        }
}

/// The nearest scope, from `id` outward through the parents, that binds `name`.
pub open spec fn owner_of(p: Seq<ScopeView>, id: int, name: Seq<char>) -> Option<int>
    decreases id,
{
    if id < 0 || id >= p.len() {
        None
    } else if has_name(p[id].members, name) {
        Some(id)
    } else {
        match p[id].parent {
            Some(q) => if 0 <= q < id {
                owner_of(p, q, name)
            } else {
                None
            },
            None => None,
        }
    }
}

/// The type set that `name` has as seen from scope `id`: the binding of the nearest enclosing scope.
pub open spec fn lookup(p: Seq<ScopeView>, id: int, name: Seq<char>) -> Option<Set<Type>> {
    match owner_of(p, id, name) {
        Some(o) => Some(p[o].members[name_index(p[o].members, name)].1),
        None => None,
    }
}

pub proof fn lemma_owner_of_bounds(p: Seq<ScopeView>, id: int, name: Seq<char>)
    ensures
        owner_of(p, id, name) matches Some(o) ==> 0 <= o <= id && o < p.len() && has_name(
            p[o].members,
            name,
        ),
    decreases id,
{
    if 0 <= id < p.len() && !has_name(p[id].members, name) {
        if let Some(q) = p[id].parent {
            if 0 <= q < id {
                lemma_owner_of_bounds(p, q, name);
            }
        }
    }
}

/// The arena after binding `name` to `t` in scope `id` itself.
pub open spec fn pool_with_binding(p: Seq<ScopeView>, id: int, name: Seq<char>, t: Set<Type>) -> Seq<ScopeView> {
    p.update(id, ScopeView { members: with_binding(p[id].members, name, t), ..p[id] })
}

/// The arena after adding a scope with no bindings under `parent`.
pub open spec fn pool_with_scope(p: Seq<ScopeView>, parent: Option<int>) -> Seq<ScopeView> {
    p.push(ScopeView { id: p.len() as int, parent: parent, members: Seq::empty() })
}

proof fn lemma_unique_index(ms: Members, name: Seq<char>, j: int)
    requires
        names_unique(ms),
        0 <= j < ms.len(),
        ms[j].0 == name,
    ensures
        has_name(ms, name),
        name_index(ms, name) == j,
{
    let k = name_index(ms, name);
    assert(0 <= k < ms.len() && ms[k].0 == name);
    if k < j {
        assert(ms[k].0 != ms[j].0);
    } else if j < k {
        assert(ms[j].0 != ms[k].0);
    }
}

proof fn lemma_with_binding_keeps(ms: Members, name: Seq<char>, t: Set<Type>)
    requires
        names_unique(ms),
    ensures
        names_unique(with_binding(ms, name, t)),
        forall|i: int| 0 <= i < ms.len() ==> #[trigger] with_binding(ms, name, t)[i].0 == ms[i].0,
{
    let r = with_binding(ms, name, t);
    if has_name(ms, name) {
        let k = name_index(ms, name);
        assert forall|i: int, j: int| 0 <= i < j < r.len() implies r[i].0 != r[j].0 by {
            assert(r[i].0 == ms[i].0 && r[j].0 == ms[j].0);
        }
    } else {
        assert forall|i: int, j: int| 0 <= i < j < r.len() implies r[i].0 != r[j].0 by {
            if j == ms.len() {
                assert(r[i].0 == ms[i].0);
            } else {
                assert(r[i].0 == ms[i].0 && r[j].0 == ms[j].0);
            }
        }
    }
}

proof fn lemma_binding_keeps_wf(p: Seq<ScopeView>, id: int, name: Seq<char>)
    requires
        pool_wf(p),
        0 <= id < p.len(),
    ensures
        forall|t: Set<Type>| #[trigger] pool_wf(pool_with_binding(p, id, name, t)),
{
    assert forall|t: Set<Type>| #[trigger] pool_wf(pool_with_binding(p, id, name, t)) by {
        let q = pool_with_binding(p, id, name, t);
        assert(p[id].id == id);
        lemma_with_binding_keeps(p[id].members, name, t);
        assert forall|i: int| 0 <= i < q.len() implies {
            &&& #[trigger] q[i].id == i
            &&& (q[i].parent matches Some(r) ==> 0 <= r < i)
            &&& names_unique(q[i].members)
        } by {
            assert(p[i].id == i);
        }
    }
}

/// One scope of the arena.
pub struct Scope {
    members: Vec<(String, TypeCollection)>,
    parent_scope: Option<usize>,
    id: usize,
}

impl View for Scope {
    type V = ScopeView;

    closed spec fn view(&self) -> ScopeView {
        ScopeView {
            id: self.id as int,
            parent: match self.parent_scope {
                Some(q) => Some(q as int),
                None => None,
            },
            members: self.members@.map_values(|m: (String, TypeCollection)| (m.0@, m.1@)),
        }
    }
}

/// The arena that owns every scope of a parse; scopes are addressed by id.
pub struct ScopePool {
    scopes: Vec<Scope>,
}

impl View for ScopePool {
    type V = Seq<ScopeView>;

    closed spec fn view(&self) -> Seq<ScopeView> {
        self.scopes@.map_values(|s: Scope| s@)
    }
}

/// A copyable reference to a scope of a pool.
#[derive(Clone, Copy, Debug, PartialEq, Eq, Structural)]
pub struct ScopeHandle {
    id: usize,
}

impl View for ScopeHandle {
    type V = int;

    closed spec fn view(&self) -> int {
        self.id as int
    }
}

impl ScopeHandle {
    pub fn id(&self) -> (r: usize)
        ensures
            r == self@,
    {
        self.id
    }

    /// Whether this handle names a scope of `pool`.
    pub open spec fn valid_in(&self, pool: &ScopePool) -> bool {
        0 <= self@ < pool@.len()
    }

    /// Adds a scope whose parent is this one.
    pub fn create_subscope(&self, scope_pool: &mut ScopePool) -> (r: ScopeHandle)
        requires
            old(scope_pool).wf(),
            self.valid_in(old(scope_pool)),
        ensures
            final(scope_pool).wf(),
            final(scope_pool)@ == pool_with_scope(old(scope_pool)@, Some(self@)),
            r@ == old(scope_pool)@.len(),
    {
        scope_pool.create_scope_with_parent(self.id)
    }

    /// The type set bound to `var_name` in the nearest enclosing scope, if any.
    pub fn get<'a>(&self, scope_pool: &'a ScopePool, var_name: &str) -> (r: Option<&'a TypeCollection>)
        requires
            scope_pool.wf(),
            self.valid_in(scope_pool),
        ensures
            match r {
                Some(t) => lookup(scope_pool@, self@, var_name@) == Some(t@),
                None => lookup(scope_pool@, self@, var_name@) is None,
            },
    {
        let key = String::from_str(var_name);
        scope_pool.get_member(self.id, &key)
    }

    /// Narrows the nearest binding of `var_name` by `other` in place; returns the narrowed set,
    /// or nothing where no enclosing scope binds the name.
    pub fn constrain(&self, scope_pool: &mut ScopePool, var_name: &str, other: &TypeCollection) -> (r: Option<TypeCollection>)
        requires
            old(scope_pool).wf(),
            self.valid_in(old(scope_pool)),
        ensures
            final(scope_pool).wf(),
            match lookup(old(scope_pool)@, self@, var_name@) {
                Some(t) => {
                    &&& r matches Some(n) && n@ == constrained(t, other@)
                    &&& final(scope_pool)@ == pool_with_binding(
                        old(scope_pool)@,
                        owner_of(old(scope_pool)@, self@, var_name@).unwrap(),
                        var_name@,
                        constrained(t, other@),
                    )
                },
                None => {
                    &&& r is None
                    &&& final(scope_pool)@ == old(scope_pool)@
                },
            },
    {
        let key = String::from_str(var_name);
        scope_pool.constrain_member(self.id, &key, other)
    }

    /// Binds `var_name` to `var_type` in this scope itself; returns the set it replaced there.
    pub fn insert(&self, scope_pool: &mut ScopePool, var_name: &str, var_type: TypeCollection) -> (r: Option<TypeCollection>)
        requires
            old(scope_pool).wf(),
            self.valid_in(old(scope_pool)),
        ensures
            final(scope_pool).wf(),
            final(scope_pool)@ == pool_with_binding(old(scope_pool)@, self@, var_name@, var_type@),
            match r {
                Some(prev) => {
                    let ms = old(scope_pool)@[self@].members;
                    has_name(ms, var_name@) && prev@ == ms[name_index(ms, var_name@)].1
                },
                None => !has_name(old(scope_pool)@[self@].members, var_name@),
            },
    {
        let key = String::from_str(var_name);
        scope_pool.bind_member(self.id, key, var_type)
    }
}

impl ScopePool {
    pub open spec fn wf(&self) -> bool {
        pool_wf(self@)
    }

    pub fn new() -> (r: ScopePool)
        ensures
            r@ == Seq::<ScopeView>::empty(),
            r.wf(),
    {
        let r = ScopePool { scopes: Vec::new() };
        proof {
            assert(r@ =~= Seq::<ScopeView>::empty());
        }
        r
    }

    pub fn len(&self) -> (r: usize)
        ensures
            r == self@.len(),
    {
        self.scopes.len()
    }

    /// The parent of scope `id`.
    pub fn parent_of(&self, id: usize) -> (r: Option<usize>)
        requires
            id < self@.len(),
        ensures
            match r {
                Some(q) => self@[id as int].parent == Some(q as int),
                None => self@[id as int].parent is None,
            },
    {
        self.scopes[id].parent_scope
    }

    /// The number of bindings of scope `id`.
    pub fn member_count(&self, id: usize) -> (r: usize)
        requires
            id < self@.len(),
        ensures
            r == self@[id as int].members.len(),
    {
        self.scopes[id].members.len()
    }

    /// Binding `k` of scope `id`.
    pub fn member_at(&self, id: usize, k: usize) -> (r: (&String, TypeCollection))
        requires
            id < self@.len(),
            k < self@[id as int].members.len(),
        ensures
            (r.0@, r.1@) == self@[id as int].members[k as int],
    {
        let m = &self.scopes[id].members[k];
        (&m.0, m.1)
    }

    /// The position of `key` among the bindings of scope `scope_id`.
    fn find_member(&self, scope_id: usize, key: &String) -> (r: Option<usize>)
        requires
            scope_id < self@.len(),
        ensures
            match r {
                Some(j) => j < self@[scope_id as int].members.len() && self@[scope_id as int].members[j as int].0 == key@,
                None => !has_name(self@[scope_id as int].members, key@),
            },
    {
        let scope = &self.scopes[scope_id];
        let ghost ms = self@[scope_id as int].members;
        let mut j: usize = 0;
        while j < scope.members.len()
            invariant
                scope_id < self@.len(),
                ms == self@[scope_id as int].members,
                ms == scope@.members,
                scope == self.scopes@[scope_id as int],
                ms.len() == scope.members@.len(),
                j <= ms.len(),
                forall|k: int| 0 <= k < j ==> ms[k].0 != key@,
            decreases ms.len() - j,
        {
            proof {
                assert(ms[j as int].0 == scope.members@[j as int].0@);
            }
            if scope.members[j].0 == *key {
                return Some(j);
            }
            j = j + 1;
        }
        None
    }

    fn get_member(&self, scope_id: usize, key: &String) -> (r: Option<&TypeCollection>)
        requires
            self.wf(),
            scope_id < self@.len(),
        ensures
            match r {
                Some(t) => lookup(self@, scope_id as int, key@) == Some(t@),
                None => lookup(self@, scope_id as int, key@) is None,
            },
    {
        match self.get_member_loc(scope_id, key) {
            Some(o) => {
                proof {
                    lemma_owner_of_bounds(self@, scope_id as int, key@);
                }
                let j = self.find_member(o, key).unwrap();
                proof {
                    assert(self@[o as int].id == o);
                    lemma_unique_index(self@[o as int].members, key@, j as int);
                    assert(self@[o as int].members[j as int].1 == self.scopes@[o as int].members@[j as int].1@);
                }
                Some(&self.scopes[o].members[j].1)
            },
            None => None,
        }
    }

    /// Narrows the nearest binding of `key` by `other`; returns the narrowed set.
    fn constrain_member(&mut self, scope_id: usize, key: &String, other: &TypeCollection) -> (r: Option<TypeCollection>)
        requires
            old(self).wf(),
            scope_id < old(self)@.len(),
        ensures
            final(self).wf(),
            match lookup(old(self)@, scope_id as int, key@) {
                Some(t) => {
                    &&& r matches Some(n) && n@ == constrained(t, other@)
                    &&& final(self)@ == pool_with_binding(
                        old(self)@,
                        owner_of(old(self)@, scope_id as int, key@).unwrap(),
                        key@,
                        constrained(t, other@),
                    )
                },
                None => {
                    &&& r is None
                    &&& final(self)@ == old(self)@
                },
            },
    {
        match self.get_member_loc(scope_id, key) {
            Some(o) => {
                proof {
                    lemma_owner_of_bounds(self@, scope_id as int, key@);
                }
                let j = self.find_member(o, key).unwrap();
                proof {
                    assert(self@[o as int].id == o);
                    lemma_unique_index(self@[o as int].members, key@, j as int);
                    assert(self@[o as int].members[j as int].1 == self.scopes@[o as int].members@[j as int].1@);
                    lemma_binding_keeps_wf(self@, o as int, key@);
                }
                let mut t = self.scopes[o].members[j].1;
                t.constrain(other);
                self.scopes[o].members[j].1 = t;
                proof {
                    let want = pool_with_binding(old(self)@, o as int, key@, t@);
                    assert(self@[o as int].members =~= want[o as int].members);
                    assert(self@ =~= want);
                }
                Some(t)
            },
            None => None,
        }
    }

    /// Binds `key` to `t` in scope `scope_id` itself; returns the set it replaced there.
    fn bind_member(&mut self, scope_id: usize, key: String, t: TypeCollection) -> (r: Option<TypeCollection>)
        requires
            old(self).wf(),
            scope_id < old(self)@.len(),
        ensures
            final(self).wf(),
            final(self)@ == pool_with_binding(old(self)@, scope_id as int, key@, t@),
            match r {
                Some(prev) => {
                    let ms = old(self)@[scope_id as int].members;
                    has_name(ms, key@) && prev@ == ms[name_index(ms, key@)].1
                },
                None => !has_name(old(self)@[scope_id as int].members, key@),
            },
    {
        proof {
            assert(self@[scope_id as int].id == scope_id);
            lemma_binding_keeps_wf(self@, scope_id as int, key@);
        }
        match self.find_member(scope_id, &key) {
            Some(j) => {
                proof {
                    lemma_unique_index(self@[scope_id as int].members, key@, j as int);
                    assert(self@[scope_id as int].members[j as int].1 == self.scopes@[scope_id as int].members@[j as int].1@);
                }
                let prev = self.scopes[scope_id].members[j].1;
                self.scopes[scope_id].members[j].1 = t;
                proof {
                    let want = pool_with_binding(old(self)@, scope_id as int, key@, t@);
                    assert(self@[scope_id as int].members =~= want[scope_id as int].members);
                    assert(self@ =~= want);
                }
                Some(prev)
            },
            None => {
                let ghost k = key@;
                self.scopes[scope_id].members.push((key, t));
                proof {
                    let want = pool_with_binding(old(self)@, scope_id as int, k, t@);
                    assert(self@[scope_id as int].members =~= want[scope_id as int].members);
                    assert(self@ =~= want);
                }
                None
            },
        }
    }

    fn create_scope_with(&mut self, parent_scope: Option<usize>) -> (r: ScopeHandle)
        requires
            old(self).wf(),
            parent_scope matches Some(q) ==> q < old(self)@.len(),
        ensures
            final(self).wf(),
            final(self)@ == pool_with_scope(
                old(self)@,
                match parent_scope {
                    Some(q) => Some(q as int),
                    None => None,
                },
            ),
            r@ == old(self)@.len(),
    {
        let id = self.scopes.len();
        self.scopes.push(Scope { members: Vec::new(), parent_scope: parent_scope, id: id });
        proof {
            let want = pool_with_scope(
                old(self)@,
                match parent_scope {
                    Some(q) => Some(q as int),
                    None => None,
                },
            );
            assert(self@[id as int].members =~= Seq::empty());
            assert(self@ =~= want);
            assert forall|i: int| 0 <= i < self@.len() implies {
                &&& #[trigger] self@[i].id == i
                &&& (self@[i].parent matches Some(q) ==> 0 <= q < i)
                &&& names_unique(self@[i].members)
            } by {
                if i < id {
                    assert(old(self)@[i].id == i);
                    assert(self@[i] == old(self)@[i]);
                }
            }
        }
        ScopeHandle { id: id }
    }

    /// Adds a scope with no parent.
    pub fn create_scope(&mut self) -> (r: ScopeHandle)
        requires
            old(self).wf(),
        ensures
            final(self).wf(),
            final(self)@ == pool_with_scope(old(self)@, None),
            r@ == old(self)@.len(),
    {
        self.create_scope_with(None)
    }

    fn create_scope_with_parent(&mut self, parent_scope: usize) -> (r: ScopeHandle)
        requires
            old(self).wf(),
            parent_scope < old(self)@.len(),
        ensures
            final(self).wf(),
            final(self)@ == pool_with_scope(old(self)@, Some(parent_scope as int)),
            r@ == old(self)@.len(),
    {
        self.create_scope_with(Some(parent_scope))
    }

    fn get_member_loc(&self, scope_id: usize, key: &String) -> (r: Option<usize>)
        requires
            self.wf(),
            scope_id < self@.len(),
        ensures
            match r {
                Some(o) => owner_of(self@, scope_id as int, key@) == Some(o as int),
                None => owner_of(self@, scope_id as int, key@) is None,
            },
        decreases scope_id,
    {
        if self.find_member(scope_id, key).is_some() {
            Some(scope_id)
        } else {
            proof {
                assert(self@[scope_id as int].id == scope_id);
            }
            match self.scopes[scope_id].parent_scope {
                Some(parent) => self.get_member_loc(parent, key),
                None => None,
            }
        }
    }
}

} // verus!
