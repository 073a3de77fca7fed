//! The class-diagram model: classes with fields, functions and connections.
use vstd::prelude::*;
use vstd::string::StringExecFns;

verus! {

/// Visibility of a class member as shown in a diagram.
#[derive(Clone, Copy, Debug, PartialEq, Eq, Structural)]
pub enum Visibility {
    Public,
    Private,
    Internal,
}

/// Kind of arrow between two classes.
#[derive(Clone, Copy, Debug, PartialEq, Eq, Structural)]
pub enum Relationship {
    Inheritance,
    Association,
    Dependency,
}

/// A field (or enum variant) line of a class.
#[derive(Clone, Debug)]
pub struct Field {
    pub visibility: Visibility,
    pub name: String,
    pub type_string: String,
}

/// A method line of a class; `params` is the already formatted parameter list.
#[derive(Clone, Debug)]
pub struct Function {
    pub visibility: Visibility,
    pub name: String,
    pub params: String,
    pub return_type: String,
}

/// An arrow `name_a <relationship> name_b`.
#[derive(Clone, Debug)]
pub struct Connection {
    pub name_a: String,
    pub name_b: String,
    pub relationship: Relationship,
}

/// A class box. `connections` is keyed by a name; no key occurs twice
/// (see [`Class::wf`]).
#[derive(Clone, Debug)]
pub struct Class {
    pub visibility: Visibility,
    pub name: String,
    pub fields: Vec<Field>,
    pub functions: Vec<Function>,
    pub connections: Vec<(String, Connection)>,
}

/// Mathematical value of a [`Field`].
pub struct FieldView {
    pub visibility: Visibility,
    pub name: Seq<char>,
    pub type_string: Seq<char>,
}

/// Mathematical value of a [`Function`].
pub struct FunctionView {
    pub visibility: Visibility,
    pub name: Seq<char>,
    pub params: Seq<char>,
    pub return_type: Seq<char>,
}

/// Mathematical value of a [`Connection`].
pub struct ConnectionView {
    pub name_a: Seq<char>,
    pub name_b: Seq<char>,
    pub relationship: Relationship,
}

/// Mathematical value of a [`Class`]: connections are kept in their order,
/// each with its key.
pub struct ClassView {
    pub visibility: Visibility,
    pub name: Seq<char>,
    pub fields: Seq<FieldView>,
    pub functions: Seq<FunctionView>,
    pub connections: Seq<(Seq<char>, ConnectionView)>,
}

impl View for Field {
    type V = FieldView;

    open spec fn view(&self) -> FieldView {
        FieldView { visibility: self.visibility, name: self.name@, type_string: self.type_string@ }
    }
}

impl View for Function {
    type V = FunctionView;

    open spec fn view(&self) -> FunctionView {
        FunctionView {
            visibility: self.visibility,
            name: self.name@,
            params: self.params@,
            return_type: self.return_type@,
        }
    }
}

impl View for Connection {
    type V = ConnectionView;

    open spec fn view(&self) -> ConnectionView {
        ConnectionView { name_a: self.name_a@, name_b: self.name_b@, relationship: self.relationship }
    }
}

pub open spec fn entry_view(e: (String, Connection)) -> (Seq<char>, ConnectionView) {
    (e.0@, e.1@)
}

impl View for Class {
    type V = ClassView;

    open spec fn view(&self) -> ClassView {
        ClassView {
            visibility: self.visibility,
            name: self.name@,
            fields: self.fields@.map_values(|f: Field| f@),
            functions: self.functions@.map_values(|f: Function| f@),
            connections: self.connections@.map_values(|e: (String, Connection)| entry_view(e)),
        }
    }
}

/// No key occurs twice among the connections.
pub open spec fn keys_distinct(conns: Seq<(Seq<char>, ConnectionView)>) -> bool {
    forall|i: int, j: int|
        0 <= i < conns.len() && 0 <= j < conns.len() && i != j ==> #[trigger] conns[i].0
            != #[trigger] conns[j].0
}

/// The connections keyed by their names.
pub open spec fn connection_map(conns: Seq<(Seq<char>, ConnectionView)>) -> Map<
    Seq<char>,
    ConnectionView,
>
    decreases conns.len(),
{
    if conns.len() == 0 {
        Map::empty()
    } else {
        connection_map(conns.drop_last()).insert(conns.last().0, conns.last().1)
    }
}

/// The entry with `c` in place of its connection when its key is `key`.
pub open spec fn replace_entry(
    e: (Seq<char>, ConnectionView),
    key: Seq<char>,
    c: ConnectionView,
) -> (Seq<char>, ConnectionView) {
    if e.0 == key {
        (key, c)
    } else {
        e
    }
}

/// Some connection is stored under `key`.
pub open spec fn has_key(conns: Seq<(Seq<char>, ConnectionView)>, key: Seq<char>) -> bool {
    exists|i: int| 0 <= i < conns.len() && #[trigger] conns[i].0 == key
}

impl ClassView {
    /// The effect of adding a connection under `key` unless one is already there.
    pub open spec fn add_connection(self, key: Seq<char>, c: ConnectionView) -> ClassView {
        if has_key(self.connections, key) {
            self
        } else {
            ClassView { connections: self.connections.push((key, c)), ..self }
        }
    }

    /// The effect of storing a connection under `key`, replacing one already there.
    pub open spec fn insert_connection(self, key: Seq<char>, c: ConnectionView) -> ClassView {
        if has_key(self.connections, key) {
            ClassView {
                connections: self.connections.map_values(
                    |e: (Seq<char>, ConnectionView)| replace_entry(e, key, c),
                ),
                ..self
            }
        } else {
            ClassView { connections: self.connections.push((key, c)), ..self }
        }
    }

    /// The effect of appending a method line.
    pub open spec fn add_function(self, f: FunctionView) -> ClassView {
        ClassView { functions: self.functions.push(f), ..self }
    }
}

impl Class {
    /// Well-formed: no connection key occurs twice.
    pub open spec fn wf(&self) -> bool {
        keys_distinct(self@.connections)
    }

    /// A class with no fields, functions or connections.
    pub fn new(visibility: Visibility, name: String) -> (res: Self)
        ensures
            res.wf(),
            res@ == (ClassView {
                visibility,
                name: name@,
                fields: Seq::empty(),
                functions: Seq::empty(),
                connections: Seq::empty(),
            }),
    {
        let res = Class {
            visibility,
            name,
            fields: Vec::new(),
            functions: Vec::new(),
            connections: Vec::new(),
        };
        assert(res@.fields =~= Seq::<FieldView>::empty());
        assert(res@.functions =~= Seq::<FunctionView>::empty());
        assert(res@.connections =~= Seq::<(Seq<char>, ConnectionView)>::empty());
        res
    }

    /// Position of the connection stored under `key`, if any.
    fn find_connection(&self, key: &String) -> (res: Option<usize>)
        ensures
            match res {
                Some(i) => i < self@.connections.len() && self@.connections[i as int].0 == key@,
                None => !has_key(self@.connections, key@),
            },
    {
        let mut i: usize = 0;
        while i < self.connections.len()
            invariant
                i <= self.connections.len(),
                forall|j: int| 0 <= j < i ==> self@.connections[j].0 != key@,
            decreases self.connections.len() - i,
        {
            if self.connections[i].0 == *key {
                return Some(i);
            }
            i = i + 1;
        }
        None
    }

    /// Adds `connection` under `name`, unless a connection is already stored under it.
    pub fn add_connection(&mut self, name: String, connection: Connection)
        requires
            old(self).wf(),
        ensures
            final(self).wf(),
            final(self)@ == old(self)@.add_connection(name@, connection@),
    {
        match self.find_connection(&name) {
            Some(_) => {},
            None => {
                self.connections.push((name, connection));
                assert(self@.connections =~= old(self)@.connections.push((name@, connection@)));
            },
        }
    }

    /// Stores `connection` under `name`, replacing a connection already stored under it.
    pub fn insert_connection(&mut self, name: String, connection: Connection)
        requires
            old(self).wf(),
        ensures
            final(self).wf(),
            final(self)@ == old(self)@.insert_connection(name@, connection@),
    {
        match self.find_connection(&name) {
            Some(i) => {
                let ghost before = self@.connections;
                self.connections.set(i, (name, connection));
                assert(forall|j: int| 0 <= j < before.len() && j != i ==> before[j].0 != before[i as int].0);
                assert(self@.connections =~= before.map_values(
                    |e: (Seq<char>, ConnectionView)| replace_entry(e, name@, connection@),
                ));
            },
            None => {
                self.connections.push((name, connection));
                assert(self@.connections =~= old(self)@.connections.push((name@, connection@)));
            },
        }
    }
}

impl Field {
    pub fn new(visibility: Visibility, name: String, type_string: String) -> (res: Self)
        ensures
            res@ == (FieldView { visibility, name: name@, type_string: type_string@ }),
    {
        Field { visibility, name, type_string }
    }
}

impl Function {
    pub fn new(visibility: Visibility, name: String, params: String, return_type: String) -> (res:
        Self)
        ensures
            res@ == (FunctionView {
                visibility,
                name: name@,
                params: params@,
                return_type: return_type@,
            }),
    {
        Function { visibility, name, params, return_type }
    }
}

impl Connection {
    pub fn new(name_a: String, name_b: String, relationship: Relationship) -> (res: Self)
        ensures
            res@ == (ConnectionView { name_a: name_a@, name_b: name_b@, relationship }),
    {
        Connection { name_a, name_b, relationship }
    }
}

} // verus!

verus! {

/// Diagram visibility of a written visibility: `pub` is public, exactly
/// `pub (crate)` is internal, anything else is private.
pub open spec fn visibility_of(vis: crate::syntax::VisibilitySyntax) -> Visibility {
    match vis {
        crate::syntax::VisibilitySyntax::Public => Visibility::Public,
        crate::syntax::VisibilitySyntax::Restricted(scope) => if scope@ == "pub (crate)"@ {
            Visibility::Internal
        } else {
            Visibility::Private
        },
        crate::syntax::VisibilitySyntax::Inherited => Visibility::Private,
    }
}

impl Visibility {
    pub fn from_vis(vis: &crate::syntax::VisibilitySyntax) -> (res: Self)
        ensures
            res == visibility_of(*vis),
    {
        match vis {
            crate::syntax::VisibilitySyntax::Public => Visibility::Public,
            crate::syntax::VisibilitySyntax::Restricted(scope) => {
                let internal = String::from_str("pub (crate)");
                if *scope == internal {
                    Visibility::Internal
                } else {
                    Visibility::Private
                }
            },
            crate::syntax::VisibilitySyntax::Inherited => Visibility::Private,
        }
    }
}

} // verus!

verus! {

/// Adding a connection under a key a second time changes nothing: the first
/// connection stored under a key stays.
pub proof fn lemma_add_connection_idempotent(
    c: ClassView,
    key: Seq<char>,
    first: ConnectionView,
    second: ConnectionView,
)
    ensures
        c.add_connection(key, first).add_connection(key, second) == c.add_connection(key, first),
        has_key(c.add_connection(key, first).connections, key),
{
    let d = c.add_connection(key, first);
    if !has_key(c.connections, key) {
        assert(d.connections[d.connections.len() - 1].0 == key);
    }
}

/// After storing a connection under a key, exactly that connection is
/// stored under it, and the other keys keep their connections.
pub proof fn lemma_insert_connection_replaces(c: ClassView, key: Seq<char>, conn: ConnectionView)
    requires
        keys_distinct(c.connections),
    ensures
        keys_distinct(c.insert_connection(key, conn).connections),
        has_key(c.insert_connection(key, conn).connections, key),
        forall|i: int|
            0 <= i < c.insert_connection(key, conn).connections.len() && (#[trigger] c.insert_connection(
                key,
                conn,
            ).connections[i]).0 == key ==> c.insert_connection(key, conn).connections[i].1 == conn,
        forall|i: int|
            0 <= i < c.connections.len() && (#[trigger] c.connections[i]).0 != key
                ==> c.insert_connection(key, conn).connections[i] == c.connections[i],
{
    let d = c.insert_connection(key, conn);
    if has_key(c.connections, key) {
        let i: int = choose|i: int| 0 <= i < c.connections.len() && #[trigger] c.connections[i].0 == key;
        assert(d.connections[i].0 == key);
        assert forall|a: int, b: int|
            0 <= a < d.connections.len() && 0 <= b < d.connections.len() && a != b implies #[trigger] d.connections[a].0
            != #[trigger] d.connections[b].0 by {
            assert(c.connections[a].0 != c.connections[b].0);
        }
    } else {
        assert(d.connections[d.connections.len() - 1].0 == key);
        assert forall|a: int, b: int|
            0 <= a < d.connections.len() && 0 <= b < d.connections.len() && a != b implies #[trigger] d.connections[a].0
            != #[trigger] d.connections[b].0 by {
            if a < c.connections.len() && b < c.connections.len() {
                assert(c.connections[a].0 != c.connections[b].0);
            } else if a < c.connections.len() {
                assert(c.connections[a].0 != key);
            } else if b < c.connections.len() {
                assert(c.connections[b].0 != key);
            }
        }
    }
}

} // verus!

verus! {

/// A key is stored among the connections exactly when the keyed map has it.
pub proof fn lemma_connection_map_keys(conns: Seq<(Seq<char>, ConnectionView)>, k: Seq<char>)
    ensures
        has_key(conns, k) <==> connection_map(conns).contains_key(k),
    decreases conns.len(),
{
    if conns.len() > 0 {
        let p = conns.drop_last();
        lemma_connection_map_keys(p, k);
        if has_key(p, k) {
            let i: int = choose|i: int| 0 <= i < p.len() && #[trigger] p[i].0 == k;
            assert(conns[i].0 == k);
        }
        if has_key(conns, k) && conns.last().0 != k {
            let i: int = choose|i: int| 0 <= i < conns.len() && #[trigger] conns[i].0 == k;
            assert(p[i].0 == k);
        }
    }
}

/// Replacing the connection of every entry under `key` stores `c` under
/// `key` in the keyed map and changes nothing else.
pub proof fn lemma_connection_map_replace(
    conns: Seq<(Seq<char>, ConnectionView)>,
    key: Seq<char>,
    c: ConnectionView,
)
    requires
        has_key(conns, key),
    ensures
        connection_map(conns.map_values(|e: (Seq<char>, ConnectionView)| replace_entry(e, key, c)))
            == connection_map(conns).insert(key, c),
    decreases conns.len(),
{
    let f = |e: (Seq<char>, ConnectionView)| replace_entry(e, key, c);
    let p = conns.drop_last();
    assert(conns.map_values(f).drop_last() =~= p.map_values(f));
    if has_key(p, key) {
        lemma_connection_map_replace(p, key, c);
        if conns.last().0 == key {
            assert(connection_map(conns.map_values(f)) =~= connection_map(conns).insert(key, c));
        } else {
            assert(connection_map(conns.map_values(f)) =~= connection_map(conns).insert(key, c));
        }
    } else {
        let i: int = choose|i: int| 0 <= i < conns.len() && #[trigger] conns[i].0 == key;
        if i < p.len() {
            assert(p[i].0 == key);
        }
        assert(conns.last().0 == key);
        assert(p.map_values(f) =~= p) by {
            assert forall|j: int| 0 <= j < p.len() implies #[trigger] p.map_values(f)[j] == p[j] by {
                if p[j].0 == key {
                    assert(has_key(p, key));
                }
            }
        }
        lemma_connection_map_keys(p, key);
        assert(connection_map(conns.map_values(f)) =~= connection_map(conns).insert(key, c));
    }
}

impl ClassView {
    /// The connections keyed by their names.
    pub open spec fn connection_map(self) -> Map<Seq<char>, ConnectionView> {
        connection_map(self.connections)
    }
}

/// As a keyed map, adding a connection stores it under its key unless the
/// key already holds one.
pub proof fn lemma_add_connection_map(c: ClassView, key: Seq<char>, x: ConnectionView)
    ensures
        c.add_connection(key, x).connection_map() == if c.connection_map().contains_key(key) {
            c.connection_map()
        } else {
            c.connection_map().insert(key, x)
        },
{
    lemma_connection_map_keys(c.connections, key);
    if !has_key(c.connections, key) {
        assert(c.connections.push((key, x)).drop_last() =~= c.connections);
    }
}

/// As a keyed map, storing a connection replaces the one under its key.
pub proof fn lemma_insert_connection_map(c: ClassView, key: Seq<char>, x: ConnectionView)
    ensures
        c.insert_connection(key, x).connection_map() == c.connection_map().insert(key, x),
{
    if has_key(c.connections, key) {
        lemma_connection_map_replace(c.connections, key, x);
    } else {
        assert(c.connections.push((key, x)).drop_last() =~= c.connections);
    }
}

/// Adding connections under two different keys gives the same keyed map
/// in either order, and changes nothing else of the class.
pub proof fn lemma_add_connections_commute(
    c: ClassView,
    k1: Seq<char>,
    x1: ConnectionView,
    k2: Seq<char>,
    x2: ConnectionView,
)
    requires
        k1 != k2,
    ensures
        c.add_connection(k1, x1).add_connection(k2, x2).connection_map() == c.add_connection(
            k2,
            x2,
        ).add_connection(k1, x1).connection_map(),
        c.add_connection(k1, x1).add_connection(k2, x2).name == c.add_connection(
            k2,
            x2,
        ).add_connection(k1, x1).name,
        c.add_connection(k1, x1).add_connection(k2, x2).visibility == c.add_connection(
            k2,
            x2,
        ).add_connection(k1, x1).visibility,
        c.add_connection(k1, x1).add_connection(k2, x2).fields == c.add_connection(
            k2,
            x2,
        ).add_connection(k1, x1).fields,
        c.add_connection(k1, x1).add_connection(k2, x2).functions == c.add_connection(
            k2,
            x2,
        ).add_connection(k1, x1).functions,
{
    let a = c.add_connection(k1, x1);
    let b = c.add_connection(k2, x2);
    lemma_add_connection_map(c, k1, x1);
    lemma_add_connection_map(c, k2, x2);
    lemma_add_connection_map(a, k2, x2);
    lemma_add_connection_map(b, k1, x1);
    assert(a.add_connection(k2, x2).connection_map() =~= b.add_connection(k1, x1).connection_map());
}

} // verus!
