//! Generation of Lua source text for constructor bindings.
//!
//! A [`LuaModule`] collects, per type name, a metatable of methods — added
//! directly or under a generic variant key — and renders the whole module as
//! Lua source text. Every renderer appends to a growing string, and its
//! contract states the exact text appended.

use vstd::prelude::*;
use crate::bounds::NodeType;

verus! {

/// The shape of one type as the generated bindings name it: its base name
/// and the signatures of its generic arguments, if any.
pub struct TypeSignature {
    pub name: String,
    pub generics: Vec<TypeSignature>,
}

/// The key a type is filed under among its base name's generic variants:
/// the base name alone for a plain type, or the base name with the
/// arguments' keys in parentheses.
pub open spec fn spec_generic_key(t: TypeSignature) -> Seq<char>
    decreases t,
{
    if t.generics@.len() == 0 {
        t.name@
    } else {
        t.name@ + "("@ + spec_generic_key_list(t.generics@) + ")"@
    }
}

/// The generic keys of a list of signatures, separated by commas.
pub open spec fn spec_generic_key_list(ts: Seq<TypeSignature>) -> Seq<char>
    decreases ts,
{
    if ts.len() == 0 {
        Seq::empty()
    } else if ts.len() == 1 {
        spec_generic_key(ts[0])
    } else {
        spec_generic_key_list(ts.drop_last()) + ","@ + spec_generic_key(ts.last())
    }
}

/// The Lua path of the metatable a type's methods live in: the base name's
/// table for a plain type, the variant entry under the base name for a
/// generic one.
pub open spec fn spec_table_path(t: TypeSignature) -> Seq<char> {
    if t.generics@.len() == 0 {
        t.name@
    } else {
        t.name@ + ".__generic_variants[\""@ + spec_generic_key(t) + "\"]"@
    }
}

impl TypeSignature {
    /// Writes the key this type is filed under among generic variants.
    pub fn get_generic_key(&self) -> (r: String)
        ensures
            r@ == spec_generic_key(*self),
        decreases *self,
    {
        if self.generics.len() == 0 {
            let mut s = String::new();
            s.append(self.name.as_str());
            proof {
                assert(s@ =~= spec_generic_key(*self));
            }
            s
        } else {
            let mut s = String::new();
            s.append(self.name.as_str());
            s.append("(");
            let mut i: usize = 0;
            while i < self.generics.len()
                invariant
                    i <= self.generics@.len(),
                    self.generics@.len() > 0,
                    s@ == self.name@ + "("@ + spec_generic_key_list(self.generics@.take(i as int)),
                decreases self.generics@.len() - i,
            {
                if i > 0 {
                    s.append(",");
                }
                proof {
                    assert(decreases_to!(*self => self.generics));
                    assert(decreases_to!(self.generics => self.generics@[i as int]));
                }
                let part = self.generics[i].get_generic_key();
                s.append(part.as_str());
                i = i + 1;
                proof {
                    assert(self.generics@.take(i as int).drop_last()
                        =~= self.generics@.take(i - 1));
                    assert(self.generics@.take(i as int).last() == self.generics@[i - 1]);
                    assert(s@ =~= self.name@ + "("@
                        + spec_generic_key_list(self.generics@.take(i as int)));
                }
            }
            s.append(")");
            proof {
                assert(self.generics@.take(self.generics@.len() as int) =~= self.generics@);
                assert(s@ =~= spec_generic_key(*self));
            }
            s
        }
    }

    /// Writes the Lua path of this type's metatable.
    pub fn get_table_path(&self) -> (r: String)
        ensures
            r@ == spec_table_path(*self),
    {
        if self.generics.len() == 0 {
            let mut s = String::new();
            s.append(self.name.as_str());
            proof {
                assert(s@ =~= spec_table_path(*self));
            }
            s
        } else {
            let key = self.get_generic_key();
            let mut s = String::new();
            s.append(self.name.as_str());
            s.append(".__generic_variants[\"");
            s.append(key.as_str());
            s.append("\"]");
            proof {
                assert(s@ =~= spec_table_path(*self));
            }
            s
        }
    }
}

/// One Lua expression of the small language the generated bindings use.
///
/// A quoted string value is emitted verbatim between double quotes: the
/// value is expected to contain no quote or backslash of its own.
pub enum LuaExpression {
    /// A plain identifier.
    Identifier { name: &'static str },
    /// A quoted string value.
    String { value: &'static str },
    /// A table literal with named fields.
    MakeTable { fields: Vec<(&'static str, Box<LuaExpression>)> },
    /// Attaches a type's metatable to the value in a variable.
    SetMetatable { variable: &'static str, metatable: TypeSignature },
    /// A table holding the surrounding function's variable arguments.
    MakeArgumentsTable,
}

/// The text of one expression.
pub open spec fn spec_expression(e: LuaExpression) -> Seq<char>
    decreases e,
{
    match e {
        LuaExpression::Identifier { name } => name@,
        LuaExpression::String { value } => crate::parse::spec_quoted(value@),
        LuaExpression::MakeTable { fields } => "{"@ + spec_field_list(fields@) + " }"@,
        LuaExpression::SetMetatable { variable, metatable } => "setmetatable("@ + variable@
            + ", "@ + spec_table_path(metatable) + ")"@,
        LuaExpression::MakeArgumentsTable => "{...}"@,
    }
}

/// The text of a table literal's fields, in order.
pub open spec fn spec_field_list(fields: Seq<(&'static str, Box<LuaExpression>)>) -> Seq<char>
    decreases fields,
{
    if fields.len() == 0 {
        Seq::empty()
    } else {
        spec_field_list(fields.drop_last()) + " "@ + fields.last().0@ + " = "@
            + spec_expression(*fields.last().1) + ","@
    }
}

impl LuaExpression {
    /// Appends this expression's text.
    fn write_to(&self, source: &mut String)
        ensures
            final(source)@ == old(source)@ + spec_expression(*self),
        decreases *self,
    {
        match self {
            LuaExpression::Identifier { name } => {
                source.append(name);
            },
            LuaExpression::String { value } => {
                proof { reveal_strlit("\""); }
                source.append("\"");
                source.append(value);
                source.append("\"");
            },
            LuaExpression::MakeTable { fields } => {
                source.append("{");
                proof {
                    let ghost e = *self;
                    assert(decreases_to!(e => e->fields));
                    assert(e->fields == *fields);
                }
                let ghost prefix = source@;
                let mut i: usize = 0;
                while i < fields.len()
                    invariant
                        i <= fields@.len(),
                        source@ == prefix + spec_field_list(fields@.take(i as int)),
                        decreases_to!(*self => *fields),
                    decreases fields@.len() - i,
                {
                    let (name, value) = &fields[i];
                    source.append(" ");
                    source.append(name);
                    source.append(" = ");
                    proof {
                        assert(decreases_to!(*fields => fields@[i as int]));
                        assert(decreases_to!(fields@[i as int] => *fields@[i as int].1));
                    }
                    value.write_to(source);
                    source.append(",");
                    i = i + 1;
                    proof {
                        assert(fields@.take(i as int).drop_last() =~= fields@.take(i - 1));
                        assert(fields@.take(i as int).last() == fields@[i - 1]);
                        assert(source@ =~= prefix + spec_field_list(fields@.take(i as int)));
                    }
                }
                source.append(" }");
                proof {
                    assert(fields@.take(fields@.len() as int) =~= fields@);
                    assert(final(source)@ =~= old(source)@ + spec_expression(*self));
                }
            },
            LuaExpression::SetMetatable { variable, metatable } => {
                source.append("setmetatable(");
                source.append(variable);
                source.append(", ");
                let path = metatable.get_table_path();
                source.append(path.as_str());
                source.append(")");
            },
            LuaExpression::MakeArgumentsTable => {
                source.append("{...}");
            },
        }
        proof {
            assert(final(source)@ =~= old(source)@ + spec_expression(*self));
        }
    }
}

/// One Lua statement of a generated method body.
pub enum LuaStatement {
    /// Binds a local variable to an expression's value.
    Assign { variable: &'static str, expression: LuaExpression },
    /// Returns an expression's value.
    Return { expression: LuaExpression },
}

/// The text of one statement: one line.
pub open spec fn spec_statement(st: LuaStatement) -> Seq<char> {
    match st {
        LuaStatement::Assign { variable, expression } => "local "@ + variable@ + " = "@
            + spec_expression(expression) + "\n"@,
        LuaStatement::Return { expression } => "return "@ + spec_expression(expression) + "\n"@,
    }
}

/// The text of a method body: its statements in order.
pub open spec fn spec_statement_list(sts: Seq<LuaStatement>) -> Seq<char>
    decreases sts.len(),
{
    if sts.len() == 0 {
        Seq::empty()
    } else {
        spec_statement_list(sts.drop_last()) + spec_statement(sts.last())
    }
}

impl LuaStatement {
    /// Appends this statement's line.
    fn write_to(&self, source: &mut String)
        ensures
            final(source)@ == old(source)@ + spec_statement(*self),
    {
        match self {
            LuaStatement::Assign { variable, expression } => {
                source.append("local ");
                source.append(variable);
                source.append(" = ");
                expression.write_to(source);
                source.append("\n");
            },
            LuaStatement::Return { expression } => {
                source.append("return ");
                expression.write_to(source);
                source.append("\n");
            },
        }
        proof {
            assert(final(source)@ =~= old(source)@ + spec_statement(*self));
        }
    }
}

/// How a method is declared: whether it takes a receiver, its named
/// arguments, and whether it takes variable arguments after them.
struct MethodInfo {
    has_self: bool,
    arguments: Vec<&'static str>,
    variable_arguments: bool,
}

/// The argument list between the parentheses of a method header.
pub open spec fn spec_argument_list(args: Seq<&'static str>, variable: bool) -> Seq<char> {
    if variable {
        if args.len() == 0 {
            "..."@
        } else {
            spec_joined_arguments(args) + ", "@ + "..."@
        }
    } else {
        spec_joined_arguments(args)
    }
}

/// The named arguments, separated by commas.
pub open spec fn spec_joined_arguments(args: Seq<&'static str>) -> Seq<char>
    decreases args.len(),
{
    if args.len() == 0 {
        Seq::empty()
    } else if args.len() == 1 {
        args[0]@
    } else {
        spec_joined_arguments(args.drop_last()) + ", "@ + args.last()@
    }
}

/// The header line of a method: a receiver-taking method is declared with
/// `:`, a static one with `.`.
pub open spec fn spec_method_header(
    has_self: bool,
    args: Seq<&'static str>,
    variable: bool,
    table_path: Seq<char>,
    method_name: Seq<char>,
) -> Seq<char> {
    "function "@ + table_path + (if has_self { ":"@ } else { "."@ }) + method_name + "("@
        + spec_argument_list(args, variable) + ")\n"@
}

impl MethodInfo {
    fn new(arguments: Vec<&'static str>) -> (r: Self)
        ensures
            r.has_self,
            r.arguments == arguments,
            !r.variable_arguments,
    {
        MethodInfo { has_self: true, arguments, variable_arguments: false }
    }

    fn new_static(arguments: Vec<&'static str>) -> (r: Self)
        ensures
            !r.has_self,
            r.arguments == arguments,
            !r.variable_arguments,
    {
        MethodInfo { has_self: false, arguments, variable_arguments: false }
    }

    /// Appends the method's header line.
    fn write_header(&self, source: &mut String, table_path: &str, method_name: &str)
        ensures
            final(source)@ == old(source)@ + spec_method_header(
                self.has_self,
                self.arguments@,
                self.variable_arguments,
                table_path@,
                method_name@,
            ),
    {
        source.append("function ");
        source.append(table_path);
        if self.has_self {
            source.append(":");
        } else {
            source.append(".");
        }
        source.append(method_name);
        source.append("(");
        let ghost prefix = source@;
        let mut i: usize = 0;
        while i < self.arguments.len()
            invariant
                i <= self.arguments@.len(),
                source@ == prefix + spec_joined_arguments(self.arguments@.take(i as int)),
            decreases self.arguments@.len() - i,
        {
            if i > 0 {
                source.append(", ");
            }
            source.append(self.arguments[i]);
            i = i + 1;
            proof {
                assert(self.arguments@.take(i as int).drop_last()
                    =~= self.arguments@.take(i - 1));
                assert(self.arguments@.take(i as int).last() == self.arguments@[i - 1]);
                assert(source@ =~= prefix
                    + spec_joined_arguments(self.arguments@.take(i as int)));
            }
        }
        proof {
            assert(self.arguments@.take(self.arguments@.len() as int) =~= self.arguments@);
        }
        if self.variable_arguments {
            if self.arguments.len() > 0 {
                source.append(", ");
            }
            source.append("...");
        }
        source.append(")\n");
        proof {
            assert(final(source)@ =~= old(source)@ + spec_method_header(
                self.has_self,
                self.arguments@,
                self.variable_arguments,
                table_path@,
                method_name@,
            ));
        }
    }
}

/// One generated method: how it is declared and the statements of its body.
pub struct Method {
    info: MethodInfo,
    body: Vec<LuaStatement>,
}

/// The full text of a method under a table path and name.
pub open spec fn spec_method(m: Method, table_path: Seq<char>, method_name: Seq<char>) -> Seq<
    char,
> {
    spec_method_header(
        m.spec_has_self(),
        m.spec_arguments(),
        m.spec_variable_arguments(),
        table_path,
        method_name,
    ) + spec_statement_list(m.spec_body()) + "end\n"@
}

impl Method {
    /// The statements of this method's body, in order.
    pub closed spec fn spec_body(self) -> Seq<LuaStatement> {
        self.body@
    }

    /// Whether this method takes a receiver.
    pub closed spec fn spec_has_self(self) -> bool {
        self.info.has_self
    }

    /// The method's named arguments.
    pub closed spec fn spec_arguments(self) -> Seq<&'static str> {
        self.info.arguments@
    }

    /// Whether the method takes variable arguments.
    pub closed spec fn spec_variable_arguments(self) -> bool {
        self.info.variable_arguments
    }

    /// A method taking a receiver and the given named arguments, with an
    /// empty body.
    pub fn new(arguments: Vec<&'static str>) -> (r: Self)
        ensures
            r.spec_has_self(),
            r.spec_arguments() == arguments@,
            !r.spec_variable_arguments(),
            r.spec_body() == Seq::<LuaStatement>::empty(),
    {
        Method { info: MethodInfo::new(arguments), body: Vec::new() }
    }

    /// A static method with the given named arguments and an empty body.
    pub fn new_static(arguments: Vec<&'static str>) -> (r: Self)
        ensures
            !r.spec_has_self(),
            r.spec_arguments() == arguments@,
            !r.spec_variable_arguments(),
            r.spec_body() == Seq::<LuaStatement>::empty(),
    {
        Method { info: MethodInfo::new_static(arguments), body: Vec::new() }
    }

    /// Declares the method as taking variable arguments.
    pub fn set_variable_arguments(&mut self)
        ensures
            final(self).spec_variable_arguments(),
            final(self).spec_has_self() == old(self).spec_has_self(),
            final(self).spec_arguments() == old(self).spec_arguments(),
            final(self).spec_body() == old(self).spec_body(),
    {
        self.info.variable_arguments = true;
    }

    /// Appends a statement to the method's body.
    pub fn add_statement(&mut self, statement: LuaStatement)
        ensures
            final(self).spec_body() == old(self).spec_body().push(statement),
            final(self).spec_has_self() == old(self).spec_has_self(),
            final(self).spec_arguments() == old(self).spec_arguments(),
            final(self).spec_variable_arguments() == old(self).spec_variable_arguments(),
    {
        self.body.push(statement);
    }

    /// Appends the method's full text under a table path and name.
    fn write_to(&self, source: &mut String, table_path: &str, method_name: &str)
        ensures
            final(source)@ == old(source)@ + spec_method(*self, table_path@, method_name@),
    {
        self.info.write_header(source, table_path, method_name);
        let ghost prefix = source@;
        let mut i: usize = 0;
        while i < self.body.len()
            invariant
                i <= self.body@.len(),
                source@ == prefix + spec_statement_list(self.body@.take(i as int)),
            decreases self.body@.len() - i,
        {
            self.body[i].write_to(source);
            i = i + 1;
            proof {
                assert(self.body@.take(i as int).drop_last() =~= self.body@.take(i - 1));
                assert(self.body@.take(i as int).last() == self.body@[i - 1]);
                assert(source@ =~= prefix + spec_statement_list(self.body@.take(i as int)));
            }
        }
        source.append("end\n");
        proof {
            assert(self.body@.take(self.body@.len() as int) =~= self.body@);
            assert(final(source)@ =~= old(source)@
                + spec_method(*self, table_path@, method_name@));
        }
    }
}

/// An association list in view space: names to values, first match counts.
/// The value of `spec_assoc_set`: the first entry for the key replaced, or a
/// new entry appended when the key has none.
pub open spec fn spec_assoc_set<V>(s: Seq<(Seq<char>, V)>, key: Seq<char>, value: V) -> Seq<
    (Seq<char>, V),
>
    decreases s.len(),
{
    if s.len() == 0 {
        seq![(key, value)]
    } else if s[0].0 == key {
        seq![(s[0].0, value)] + s.drop_first()
    } else {
        seq![s[0]] + spec_assoc_set(s.drop_first(), key, value)
    }
}

/// Whether an association list has an entry for a key.
pub open spec fn spec_assoc_has<V>(s: Seq<(Seq<char>, V)>, key: Seq<char>) -> bool {
    exists|i: int| 0 <= i < s.len() && s[i].0 == key
}

/// The value of the first entry for a key, if the list has one.
pub open spec fn spec_assoc_get<V>(s: Seq<(Seq<char>, V)>, key: Seq<char>) -> Option<V>
    decreases s.len(),
{
    if s.len() == 0 {
        None
    } else if s[0].0 == key {
        Some(s[0].1)
    } else {
        spec_assoc_get(s.drop_first(), key)
    }
}

proof fn lemma_assoc_get_at<V>(s: Seq<(Seq<char>, V)>, key: Seq<char>, j: int)
    requires
        0 <= j < s.len(),
        s[j].0 == key,
        forall|i: int| 0 <= i < j ==> s[i].0 != key,
    ensures
        spec_assoc_get(s, key) == Some(s[j].1),
    decreases j,
{
    if j > 0 {
        lemma_assoc_get_at(s.drop_first(), key, j - 1);
    }
}

proof fn lemma_assoc_get_none<V>(s: Seq<(Seq<char>, V)>, key: Seq<char>)
    requires
        forall|i: int| 0 <= i < s.len() ==> s[i].0 != key,
    ensures
        spec_assoc_get(s, key) is None,
    decreases s.len(),
{
    if s.len() > 0 {
        lemma_assoc_get_none(s.drop_first(), key);
    }
}

proof fn lemma_assoc_set_at<V>(s: Seq<(Seq<char>, V)>, key: Seq<char>, value: V, j: int)
    requires
        0 <= j < s.len(),
        s[j].0 == key,
        forall|i: int| 0 <= i < j ==> s[i].0 != key,
    ensures
        spec_assoc_set(s, key, value) =~= s.update(j, (key, value)),
    decreases j,
{
    if j == 0 {
        assert(spec_assoc_set(s, key, value) =~= s.update(0, (key, value)));
    } else {
        lemma_assoc_set_at(s.drop_first(), key, value, j - 1);
        assert(s.drop_first().update(j - 1, (key, value)) =~= s.update(j, (key, value)).drop_first());
        assert(spec_assoc_set(s, key, value) =~= s.update(j, (key, value)));
    }
}

proof fn lemma_assoc_set_new<V>(s: Seq<(Seq<char>, V)>, key: Seq<char>, value: V)
    requires
        forall|i: int| 0 <= i < s.len() ==> s[i].0 != key,
    ensures
        spec_assoc_set(s, key, value) =~= s.push((key, value)),
    decreases s.len(),
{
    if s.len() > 0 {
        lemma_assoc_set_new(s.drop_first(), key, value);
        assert(s.drop_first().push((key, value)) =~= s.push((key, value)).drop_first());
        assert(spec_assoc_set(s, key, value) =~= s.push((key, value)));
    }
}

/// An association list with owned string keys, viewed in view space.
pub open spec fn spec_assoc_view<V>(s: Seq<(String, V)>) -> Seq<(Seq<char>, V)> {
    s.map_values(|p: (String, V)| (p.0@, p.1))
}

/// Finds the first entry for a key, if the list has one.
fn assoc_position<V>(list: &Vec<(String, V)>, key: &String) -> (r: Option<usize>)
    ensures
        match r {
            Some(j) => {
                &&& j < list@.len()
                &&& list@[j as int].0@ == key@
                &&& forall|i: int| 0 <= i < j ==> list@[i].0@ != key@
            },
            None => forall|i: int| 0 <= i < list@.len() ==> list@[i].0@ != key@,
        },
{
    let mut j: usize = 0;
    while j < list.len()
        invariant
            j <= list@.len(),
            forall|i: int| 0 <= i < j ==> list@[i].0@ != key@,
        decreases list@.len() - j,
    {
        if list[j].0 == *key {
            return Some(j);
        }
        j = j + 1;
    }
    None
}

/// Replaces the first entry for a key, or appends one.
fn assoc_set<V>(list: &mut Vec<(String, V)>, key: String, value: V)
    ensures
        spec_assoc_view(final(list)@) == spec_assoc_set(spec_assoc_view(old(list)@), key@, value),
{
    match assoc_position(list, &key) {
        Some(j) => {
            let entry = &mut list[j];
            entry.0 = key;
            entry.1 = value;
            proof {
                lemma_assoc_set_at(spec_assoc_view(old(list)@), key@, value, j as int);
                assert(spec_assoc_view(list@)
                    =~= spec_assoc_view(old(list)@).update(j as int, (key@, value)));
            }
        },
        None => {
            list.push((key, value));
            proof {
                lemma_assoc_set_new(spec_assoc_view(old(list)@), key@, value);
                assert(spec_assoc_view(list@)
                    =~= spec_assoc_view(old(list)@).push((key@, value)));
            }
        },
    }
}

/// Finds the first entry for a key, inserting the given value at the end
/// when the key has none, and returns the entry's position.
fn assoc_position_or_insert<V>(list: &mut Vec<(String, V)>, key: String, empty: V) -> (j: usize)
    ensures
        j < final(list)@.len(),
        final(list)@[j as int].0@ == key@,
        forall|i: int| 0 <= i < j ==> final(list)@[i].0@ != key@,
        spec_assoc_has(spec_assoc_view(old(list)@), key@) ==> *final(list) == *old(list),
        !spec_assoc_has(spec_assoc_view(old(list)@), key@) ==> {
            &&& j == old(list)@.len()
            &&& spec_assoc_view(final(list)@) == spec_assoc_view(old(list)@).push((key@, empty))
        },
{
    match assoc_position(list, &key) {
        Some(j) => {
            proof {
                assert(spec_assoc_view(list@)[j as int].0 == key@);
            }
            j
        },
        None => {
            let j = list.len();
            list.push((key, empty));
            proof {
                assert(spec_assoc_view(list@)
                    =~= spec_assoc_view(old(list)@).push((key@, empty)));
            }
            j
        },
    }
}

fn clone_string(s: &String) -> (r: String)
    ensures
        r@ == s@,
{
    s.clone()
}

fn to_string(s: &str) -> (r: String)
    ensures
        r@ == s@,
{
    s.to_owned()
}

/// The metatable collected for one type name: its base methods, and the
/// method lists of its generic variants, each filed under a variant key.
pub struct Metatable {
    methods: Vec<(String, Method)>,
    generic_variants: Vec<(String, Vec<(String, Method)>)>,
}

impl Metatable {
    /// The base methods, by name, in the order first added.
    pub closed spec fn spec_methods(self) -> Seq<(Seq<char>, Method)> {
        spec_assoc_view(self.methods@)
    }

    /// The generic variants, by variant key, each with its methods.
    pub closed spec fn spec_variants(self) -> Seq<(Seq<char>, Seq<(Seq<char>, Method)>)> {
        self.generic_variants@.map_values(
            |p: (String, Vec<(String, Method)>)| (p.0@, spec_assoc_view(p.1@)),
        )
    }

    /// An empty metatable.
    pub fn new() -> (r: Self)
        ensures
            r.spec_methods() == Seq::<(Seq<char>, Method)>::empty(),
            r.spec_variants() == Seq::<(Seq<char>, Seq<(Seq<char>, Method)>)>::empty(),
    {
        let r = Metatable { methods: Vec::new(), generic_variants: Vec::new() };
        proof {
            assert(r.spec_methods() =~= Seq::<(Seq<char>, Method)>::empty());
            assert(r.spec_variants()
                =~= Seq::<(Seq<char>, Seq<(Seq<char>, Method)>)>::empty());
        }
        r
    }
}

/// A type whose constructor bindings can be generated: it names its
/// signature and can add its methods to a module.
pub trait GenerateLua: NodeType {
    /// The signature under which this type's bindings are filed.
    spec fn spec_type_signature() -> TypeSignature;

    /// The signature under which this type's bindings are filed.
    fn type_signature() -> (r: TypeSignature)
        ensures
            r == Self::spec_type_signature(),
    ;

    /// Adds this type's methods to the module; what is added is each
    /// type's own business.
    fn generate_lua(module: &mut LuaModule);
}

/// How one metatable relates to its state before a method was added under
/// the given signature: the method's entry is set — among the base methods
/// for a plain signature, in the variant for the signature's generic key
/// otherwise — and everything else is kept.
pub open spec fn spec_metatable_updated(
    before_methods: Seq<(Seq<char>, Method)>,
    before_variants: Seq<(Seq<char>, Seq<(Seq<char>, Method)>)>,
    after: Metatable,
    sig: TypeSignature,
    method_name: Seq<char>,
    method: Method,
) -> bool {
    if sig.generics@.len() == 0 {
        &&& after.spec_methods() == spec_assoc_set(before_methods, method_name, method)
        &&& after.spec_variants() == before_variants
    } else {
        let key = spec_generic_key(sig);
        let inner = match spec_assoc_get(before_variants, key) {
            Some(ms) => ms,
            None => Seq::empty(),
        };
        &&& after.spec_methods() == before_methods
        &&& after.spec_variants() == spec_assoc_set(
            before_variants,
            key,
            spec_assoc_set(inner, method_name, method),
        )
    }
}

/// How a module's metatable list relates to its state before a method was
/// added under a signature: position `j` is the first entry for the
/// signature's name — updated in place, or freshly appended at the end —
/// and every other entry is kept.
pub open spec fn spec_method_added(
    mts: Seq<(Seq<char>, Metatable)>,
    fmts: Seq<(Seq<char>, Metatable)>,
    sig: TypeSignature,
    method_name: Seq<char>,
    method: Method,
    j: int,
) -> bool {
    &&& 0 <= j < fmts.len()
    &&& fmts[j].0 == sig.name@
    &&& forall|i: int| 0 <= i < j ==> fmts[i].0 != sig.name@
    &&& (if j < mts.len() {
        fmts.len() == mts.len()
    } else {
        j == mts.len() && fmts.len() == mts.len() + 1
    })
    &&& forall|i: int| 0 <= i < fmts.len() && i != j ==> fmts[i] == mts[i]
    &&& spec_metatable_updated(
        if j < mts.len() { mts[j].1.spec_methods() } else { Seq::empty() },
        if j < mts.len() { mts[j].1.spec_variants() } else { Seq::empty() },
        fmts[j].1,
        sig,
        method_name,
        method,
    )
}

/// A collection of metatables being built for a set of types, rendered as
/// one Lua module.
pub struct LuaModule {
    metatables: Vec<(String, Metatable)>,
    visited_types: Vec<u64>,
}

impl LuaModule {
    /// The metatables by type name, in the order first seen.
    pub closed spec fn spec_metatables(self) -> Seq<(Seq<char>, Metatable)> {
        self.metatables@.map_values(|p: (String, Metatable)| (p.0@, p.1))
    }

    /// The tags of the types whose bindings were already generated.
    pub closed spec fn spec_visited(self) -> Seq<u64> {
        self.visited_types@
    }

    /// An empty module.
    pub fn new() -> (r: Self)
        ensures
            r.spec_metatables() == Seq::<(Seq<char>, Metatable)>::empty(),
            r.spec_visited() == Seq::<u64>::empty(),
    {
        let r = LuaModule { metatables: Vec::new(), visited_types: Vec::new() };
        proof {
            assert(r.spec_metatables() =~= Seq::<(Seq<char>, Metatable)>::empty());
        }
        r
    }

    /// Marks a type as visited, making sure a metatable exists under its
    /// name, and says whether the type was new: each type's bindings are
    /// generated once, however often the type is mentioned.
    pub fn visit_type<T: GenerateLua>(&mut self) -> (r: bool)
        ensures
            r == !old(self).spec_visited().contains(T::spec_tag()),
            !r ==> *final(self) == *old(self),
            r ==> {
                &&& final(self).spec_visited() == old(self).spec_visited().push(T::spec_tag())
                &&& spec_assoc_has(
                    old(self).spec_metatables(),
                    T::spec_type_signature().name@,
                ) ==> final(self).spec_metatables() == old(self).spec_metatables()
                &&& !spec_assoc_has(
                    old(self).spec_metatables(),
                    T::spec_type_signature().name@,
                ) ==> {
                    let fmts = final(self).spec_metatables();
                    let mts = old(self).spec_metatables();
                    &&& fmts.len() == mts.len() + 1
                    &&& forall|i: int| 0 <= i < mts.len() ==> fmts[i] == mts[i]
                    &&& fmts.last().0 == T::spec_type_signature().name@
                    &&& fmts.last().1.spec_methods() == Seq::<(Seq<char>, Method)>::empty()
                    &&& fmts.last().1.spec_variants()
                        == Seq::<(Seq<char>, Seq<(Seq<char>, Method)>)>::empty()
                }
            },
    {
        let tag = T::tag();
        let mut i: usize = 0;
        while i < self.visited_types.len()
            invariant
                i <= self.visited_types@.len(),
                tag == T::spec_tag(),
                forall|j: int| 0 <= j < i ==> self.visited_types@[j] != tag,
            decreases self.visited_types@.len() - i,
        {
            if self.visited_types[i] == tag {
                proof {
                    assert(self.spec_visited()[i as int] == tag);
                }
                return false;
            }
            i = i + 1;
        }
        self.visited_types.push(tag);
        let sig = T::type_signature();
        let mut name_in = false;
        let mut j: usize = 0;
        while j < self.metatables.len()
            invariant
                j <= self.metatables@.len(),
                name_in == exists|i: int| 0 <= i < j && self.metatables@[i].0@ == sig.name@,
            decreases self.metatables@.len() - j,
        {
            if self.metatables[j].0 == sig.name {
                name_in = true;
            }
            j = j + 1;
        }
        if !name_in {
            self.metatables.push((sig.name, Metatable::new()));
            proof {
                assert(self.spec_metatables()
                    =~= old(self).spec_metatables().push(
                        (T::spec_type_signature().name@, self.metatables@.last().1),
                    ));
            }
        }
        proof {
            if name_in {
                assert(self.metatables@ == old(self).metatables@);
                assert(spec_assoc_has(
                    old(self).spec_metatables(),
                    T::spec_type_signature().name@,
                )) by {
                    let w = choose|i: int|
                        0 <= i < old(self).metatables@.len()
                            && old(self).metatables@[i].0@ == T::spec_type_signature().name@;
                    assert(old(self).spec_metatables()[w].0
                        == T::spec_type_signature().name@);
                }
            } else {
                assert(!spec_assoc_has(
                    old(self).spec_metatables(),
                    T::spec_type_signature().name@,
                )) by {
                    assert(forall|i: int|
                        0 <= i < old(self).spec_metatables().len()
                            ==> (#[trigger] old(self).spec_metatables()[i]).0
                                == old(self).metatables@[i].0@);
                }
            }
        }
        true
    }

    /// Files a method under a type's signature: among the base methods of
    /// the signature's name for a plain type, in the variant for the
    /// signature's generic key otherwise. A metatable, and a variant entry,
    /// are created the first time they are needed; an existing entry for
    /// the method's name is replaced.
    pub fn add_method(&mut self, metatable: &TypeSignature, method_name: &'static str, method: Method)
        ensures
            final(self).spec_visited() == old(self).spec_visited(),
            exists|j: int| #![auto] spec_method_added(
                old(self).spec_metatables(),
                final(self).spec_metatables(),
                *metatable,
                method_name@,
                method,
                j,
            ),
    {
        let ghost mts = self.spec_metatables();
        let name = clone_string(&metatable.name);
        let j = assoc_position_or_insert(&mut self.metatables, name, Metatable::new());
        let ghost midv = self.spec_metatables();
        let ghost jj = j as int;
        proof {
            if spec_assoc_has(mts, metatable.name@) {
                assert(jj < mts.len());
            } else {
                if jj < mts.len() {
                    assert(mts[jj].0 == self.metatables@[jj].0@);
                    assert(false);
                }
            }
        }
        if metatable.generics.len() == 0 {
            let entry = &mut self.metatables[j];
            let ghost mt_before = entry.1;
            assoc_set(&mut entry.1.methods, to_string(method_name), method);
            proof {
                assert(after_borrow(*self).spec_metatables()
                    =~= midv.update(jj, (midv[jj].0, after_borrow(*self).metatables@[jj].1)));
            }
        } else {
            let key = metatable.get_generic_key();
            let fresh: Vec<(String, Method)> = Vec::new();
            let entry = &mut self.metatables[j];
            let ghost pre_vars = entry.1.generic_variants@;
            let ghost pre_view = entry.1.spec_variants();
            let vj = assoc_position_or_insert(&mut entry.1.generic_variants, key, fresh);
            let ghost a_vars = entry.1.generic_variants@;
            let ghost vjj = vj as int;
            let ghost key_view = spec_generic_key(*metatable);
            let ghost inner0 = if vjj < pre_vars.len() {
                spec_assoc_view(pre_vars[vjj].1@)
            } else {
                Seq::<(Seq<char>, Method)>::empty()
            };
            proof {
                assert(forall|i: int| 0 <= i < pre_vars.len()
                    ==> (#[trigger] pre_view[i]).0 == spec_assoc_view(pre_vars)[i].0);
                if spec_assoc_has(spec_assoc_view(pre_vars), key_view) {
                    let w = choose|i: int|
                        0 <= i < pre_vars.len()
                            && (#[trigger] spec_assoc_view(pre_vars)[i]).0 == key_view;
                    assert(vjj < pre_vars.len());
                    assert(spec_assoc_has(pre_view, key_view)) by {
                        assert(pre_view[w].0 == key_view);
                    }
                    lemma_assoc_get_at(pre_view, key_view, vjj);
                    assert(spec_assoc_get(pre_view, key_view) == Some(inner0));
                } else {
                    assert(vjj == pre_vars.len());
                    assert(!spec_assoc_has(pre_view, key_view)) by {
                        if spec_assoc_has(pre_view, key_view) {
                            let w = choose|i: int|
                                0 <= i < pre_view.len()
                                    && (#[trigger] pre_view[i]).0 == key_view;
                            assert(spec_assoc_view(pre_vars)[w].0 == key_view);
                        }
                    }
                    lemma_assoc_get_none(pre_view, key_view);
                    assert(spec_assoc_view(a_vars)[vjj] == (key_view, fresh));
                    assert(a_vars[vjj].1 == fresh);
                    assert(spec_assoc_view(a_vars[vjj].1@) =~= inner0);
                }
            }
            let variant = &mut entry.1.generic_variants[vj];
            assoc_set(&mut variant.1, to_string(method_name), method);
            proof {
                let mt_after = after_borrow(*self).metatables@[jj].1;
                let new_inner = spec_assoc_set(inner0, method_name@, method);
                assert(spec_assoc_view(mt_after.generic_variants@[vjj].1@) == new_inner);
                assert(mt_after.spec_variants()
                    =~= a_vars.map_values(
                        |p: (String, Vec<(String, Method)>)| (p.0@, spec_assoc_view(p.1@)),
                    ).update(vjj, (key_view, new_inner)));
                if spec_assoc_has(pre_view, key_view) {
                    lemma_assoc_set_at(pre_view, key_view, new_inner, vjj);
                    assert(mt_after.spec_variants()
                        =~= spec_assoc_set(pre_view, key_view, new_inner));
                } else {
                    lemma_assoc_set_new(pre_view, key_view, new_inner);
                    let deep_a = a_vars.map_values(
                        |p: (String, Vec<(String, Method)>)| (p.0@, spec_assoc_view(p.1@)),
                    );
                    assert forall|i: int| 0 <= i < pre_vars.len()
                        implies #[trigger] deep_a[i] == pre_view[i]
                    by {
                        assert(spec_assoc_view(a_vars)[i] == spec_assoc_view(pre_vars)[i]);
                        assert(a_vars[i].0@ == pre_vars[i].0@);
                        assert(a_vars[i].1 == pre_vars[i].1);
                    };
                    assert(spec_assoc_view(a_vars).len() == pre_vars.len() + 1);
                    assert(a_vars.len() == pre_vars.len() + 1);
                    assert(deep_a.len() == pre_vars.len() + 1);
                    assert(pre_view.len() == pre_vars.len());
                    assert(deep_a.update(vjj, (key_view, new_inner))
                        =~= pre_view.push((key_view, new_inner)));
                    assert(mt_after.spec_variants()
                        =~= spec_assoc_set(pre_view, key_view, new_inner));
                }
                assert(after_borrow(*self).spec_metatables()
                    =~= midv.update(jj, (midv[jj].0, mt_after)));
            }
        }
        proof {
            assert(spec_method_added(
                mts,
                self.spec_metatables(),
                *metatable,
                method_name@,
                method,
                jj,
            ));
        }
    }

    /// Renders the whole module as Lua source text: the declarations of
    /// every metatable and its generic variants, their methods, a call
    /// handler per base name that picks the variant for the given generic
    /// arguments, and a final table returning the metatables by name.
    /// Metatables, methods and variants render in the order they were first
    /// added, which the contract pins exactly; no ordering by name takes
    /// place.
    #[verifier::rlimit(100)]
    pub fn source_code(&self) -> (r: String)
        ensures
            r@ == spec_module_source(self.spec_metatables()),
    {
        let ghost mts = self.spec_metatables();
        let mut source = String::new();
        let mut i: usize = 0;
        while i < self.metatables.len()
            invariant
                i <= self.metatables@.len(),
                mts == self.spec_metatables(),
                source@ == spec_declarations(mts.take(i as int)),
            decreases self.metatables@.len() - i,
        {
            let entry = &self.metatables[i];
            let name = entry.0.as_str();
            source.append("local ");
            source.append(name);
            source.append(" = {__generic_key = \"");
            source.append(name);
            source.append("\"}\n");
            source.append(name);
            source.append(".__index = ");
            source.append(name);
            source.append("\n");
            if entry.1.generic_variants.len() > 0 {
                source.append(name);
                source.append(".__generic_variants = {}\n");
                let ghost prefix = source@;
                let ghost vars = entry.1.spec_variants();
                let mut vi: usize = 0;
                while vi < entry.1.generic_variants.len()
                    invariant
                        vi <= entry.1.generic_variants@.len(),
                        vars == entry.1.spec_variants(),
                        name@ == entry.0@,
                        source@ == prefix + spec_declare_variants(name@, vars.take(vi as int)),
                    decreases entry.1.generic_variants@.len() - vi,
                {
                    let key = entry.1.generic_variants[vi].0.as_str();
                    let path = variant_path_string(name, key);
                    source.append(path.as_str());
                    source.append(" = {__generic_key = \"");
                    source.append(key);
                    source.append("\"}\n");
                    source.append(path.as_str());
                    source.append(".__index = ");
                    source.append(path.as_str());
                    source.append("\n");
                    vi = vi + 1;
                    proof {
                        assert(vars.take(vi as int).drop_last() =~= vars.take(vi - 1));
                        assert(vars.take(vi as int).last() == vars[vi - 1]);
                        assert(vars[vi - 1].0 == entry.1.generic_variants@[vi - 1].0@);
                        assert(source@ =~= prefix
                            + spec_declare_variants(name@, vars.take(vi as int)));
                    }
                }
                proof {
                    assert(vars.take(vars.len() as int) =~= vars);
                }
            }
            i = i + 1;
            proof {
                assert(mts.take(i as int).drop_last() =~= mts.take(i - 1));
                assert(mts.take(i as int).last() == mts[i - 1]);
                assert(source@ =~= spec_declarations(mts.take(i as int)));
            }
        }
        proof {
            assert(mts.take(mts.len() as int) =~= mts);
        }
        let ghost decls = source@;
        let mut i: usize = 0;
        while i < self.metatables.len()
            invariant
                i <= self.metatables@.len(),
                mts == self.spec_metatables(),
                source@ == decls + spec_populations(mts.take(i as int)),
            decreases self.metatables@.len() - i,
        {
            let entry = &self.metatables[i];
            let name = entry.0.as_str();
            populate_table(&mut source, name, &entry.1.methods);
            let ghost var_prefix = source@;
            let ghost vars = entry.1.spec_variants();
            let mut vi: usize = 0;
            while vi < entry.1.generic_variants.len()
                invariant
                    vi <= entry.1.generic_variants@.len(),
                    vars == entry.1.spec_variants(),
                    name@ == entry.0@,
                    source@ == var_prefix + spec_populate_variants(name@, vars.take(vi as int)),
                decreases entry.1.generic_variants@.len() - vi,
            {
                let variant = &entry.1.generic_variants[vi];
                let path = variant_path_string(name, variant.0.as_str());
                populate_table(&mut source, path.as_str(), &variant.1);
                vi = vi + 1;
                proof {
                    assert(vars.take(vi as int).drop_last() =~= vars.take(vi - 1));
                    assert(vars.take(vi as int).last() == vars[vi - 1]);
                    assert(vars[vi - 1].0 == entry.1.generic_variants@[vi - 1].0@);
                    assert(vars[vi - 1].1
                        == spec_assoc_view(entry.1.generic_variants@[vi - 1].1@));
                    assert(source@ =~= var_prefix
                        + spec_populate_variants(name@, vars.take(vi as int)));
                }
            }
            proof {
                assert(vars.take(vars.len() as int) =~= vars);
            }
            write_call_block(&mut source, name);
            i = i + 1;
            proof {
                assert(mts.take(i as int).drop_last() =~= mts.take(i - 1));
                assert(mts.take(i as int).last() == mts[i - 1]);
                assert(source@ =~= decls + spec_populations(mts.take(i as int)));
            }
        }
        proof {
            assert(mts.take(mts.len() as int) =~= mts);
        }
        let ghost pops = source@;
        source.append("return {\n");
        let ghost footer_prefix = source@;
        let mut i: usize = 0;
        while i < self.metatables.len()
            invariant
                i <= self.metatables@.len(),
                mts == self.spec_metatables(),
                source@ == footer_prefix + spec_footer_entries(mts.take(i as int)),
            decreases self.metatables@.len() - i,
        {
            let name = self.metatables[i].0.as_str();
            source.append(name);
            source.append(" = ");
            source.append(name);
            source.append(",\n");
            i = i + 1;
            proof {
                assert(mts.take(i as int).drop_last() =~= mts.take(i - 1));
                assert(mts.take(i as int).last() == mts[i - 1]);
                assert(source@ =~= footer_prefix + spec_footer_entries(mts.take(i as int)));
            }
        }
        source.append("}\n");
        proof {
            assert(mts.take(mts.len() as int) =~= mts);
            assert(source@ =~= spec_module_source(mts));
        }
        source
    }
}

/// The Lua path of one generic variant's metatable under a base name.
pub open spec fn spec_variant_path(name: Seq<char>, key: Seq<char>) -> Seq<char> {
    name + ".__generic_variants[\""@ + key + "\"]"@
}

/// Builds the Lua path of one generic variant's metatable.
fn variant_path_string(name: &str, key: &str) -> (r: String)
    ensures
        r@ == spec_variant_path(name@, key@),
{
    let mut s = String::new();
    s.append(name);
    s.append(".__generic_variants[\"");
    s.append(key);
    s.append("\"]");
    proof {
        assert(s@ =~= spec_variant_path(name@, key@));
    }
    s
}

/// The text filling one metatable with its methods: each method is written
/// under a `__table` local bound to the metatable's path.
pub open spec fn spec_populate(table_path: Seq<char>, methods: Seq<(Seq<char>, Method)>) -> Seq<
    char,
>
    decreases methods.len(),
{
    if methods.len() == 0 {
        Seq::empty()
    } else {
        spec_populate(table_path, methods.drop_last()) + "local __table = "@ + table_path + "\n"@
            + spec_method(methods.last().1, "__table"@, methods.last().0)
    }
}

/// Appends the methods of one metatable, each under a `__table` local bound
/// to the metatable's path.
fn populate_table(source: &mut String, table_path: &str, methods: &Vec<(String, Method)>)
    ensures
        final(source)@ == old(source)@ + spec_populate(table_path@, spec_assoc_view(methods@)),
{
    let ghost prefix = source@;
    let ghost ms = spec_assoc_view(methods@);
    let mut i: usize = 0;
    while i < methods.len()
        invariant
            i <= methods@.len(),
            ms == spec_assoc_view(methods@),
            source@ == prefix + spec_populate(table_path@, ms.take(i as int)),
        decreases methods@.len() - i,
    {
        source.append("local __table = ");
        source.append(table_path);
        source.append("\n");
        let entry = &methods[i];
        entry.1.write_to(source, "__table", entry.0.as_str());
        i = i + 1;
        proof {
            assert(ms.take(i as int).drop_last() =~= ms.take(i - 1));
            assert(ms.take(i as int).last() == ms[i - 1]);
            assert(ms[i - 1] == (methods@[i - 1].0@, methods@[i - 1].1));
            assert(source@ =~= prefix + spec_populate(table_path@, ms.take(i as int)));
        }
    }
    proof {
        assert(ms.take(ms.len() as int) =~= ms);
    }
}

/// The declarations of one metatable's generic variant tables.
pub open spec fn spec_declare_variants(
    name: Seq<char>,
    vars: Seq<(Seq<char>, Seq<(Seq<char>, Method)>)>,
) -> Seq<char>
    decreases vars.len(),
{
    if vars.len() == 0 {
        Seq::empty()
    } else {
        spec_declare_variants(name, vars.drop_last()) + spec_variant_path(name, vars.last().0)
            + " = {__generic_key = \""@ + vars.last().0 + "\"}\n"@
            + spec_variant_path(name, vars.last().0) + ".__index = "@
            + spec_variant_path(name, vars.last().0) + "\n"@
    }
}

/// The declaration of one metatable and its variant tables.
pub open spec fn spec_declare_one(name: Seq<char>, mt: Metatable) -> Seq<char> {
    "local "@ + name + " = {__generic_key = \""@ + name + "\"}\n"@ + name + ".__index = "@ + name
        + "\n"@ + if mt.spec_variants().len() > 0 {
        name + ".__generic_variants = {}\n"@ + spec_declare_variants(name, mt.spec_variants())
    } else {
        Seq::empty()
    }
}

/// The declaration pass of the module: every metatable in order.
pub open spec fn spec_declarations(mts: Seq<(Seq<char>, Metatable)>) -> Seq<char>
    decreases mts.len(),
{
    if mts.len() == 0 {
        Seq::empty()
    } else {
        spec_declarations(mts.drop_last()) + spec_declare_one(mts.last().0, mts.last().1)
    }
}

/// The method text of one metatable's generic variants.
pub open spec fn spec_populate_variants(
    name: Seq<char>,
    vars: Seq<(Seq<char>, Seq<(Seq<char>, Method)>)>,
) -> Seq<char>
    decreases vars.len(),
{
    if vars.len() == 0 {
        Seq::empty()
    } else {
        spec_populate_variants(name, vars.drop_last())
            + spec_populate(spec_variant_path(name, vars.last().0), vars.last().1)
    }
}

/// Appends the call handler attached to one base name.
#[verifier::spinoff_prover]
#[verifier::rlimit(100)]
fn write_call_block(source: &mut String, name: &str)
    ensures
        final(source)@ == old(source)@ + spec_call_block(name@),
{
    source.append("local __");
    source.append(name);
    source.append("Meta = {}\n");
    source.append("__");
    source.append(name);
    source.append("Meta.__index = __");
    source.append(name);
    source.append("Meta\n");
    source.append("function __");
    source.append(name);
    source.append("Meta:__call(...)\n");
    source.append("\nlocal args = {...}\nif #args == 0 then\n    return ");
    source.append(name);
    source.append("\nend\n\nlocal key = \"");
    source.append(name);
    source.append(
        "(\"\nfor i = 1, #args do\n    if i > 1 then key = key .. \",\" end\n    key = key .. args[i].__generic_key\nend\nkey = key .. \")\"\n\nif ",
    );
    source.append(name);
    source.append(
        ".__generic_variants[key] == nil then\n    error(key .. \" is not a possible instance of \" .. \"",
    );
    source.append(name);
    source.append("\")\nend\n\nreturn ");
    source.append(name);
    source.append(".__generic_variants[key]\n\n");
    source.append("end\n");
    source.append("setmetatable(");
    source.append(name);
    source.append(", __");
    source.append(name);
    source.append("Meta)\n");
    proof {
        assert(final(source)@ =~= old(source)@ + spec_call_block(name@));
    }
}

/// The call handler attached to one base name: calling the name with
/// generic arguments looks their variant up by its generic key.
pub open spec fn spec_call_block(name: Seq<char>) -> Seq<char> {
    "local __"@ + name + "Meta = {}\n"@ + "__"@ + name + "Meta.__index = __"@ + name + "Meta\n"@
        + "function __"@ + name + "Meta:__call(...)\n"@
        + "\nlocal args = {...}\nif #args == 0 then\n    return "@ + name
        + "\nend\n\nlocal key = \""@ + name
        + "(\"\nfor i = 1, #args do\n    if i > 1 then key = key .. \",\" end\n    key = key .. args[i].__generic_key\nend\nkey = key .. \")\"\n\nif "@
        + name
        + ".__generic_variants[key] == nil then\n    error(key .. \" is not a possible instance of \" .. \""@
        + name + "\")\nend\n\nreturn "@ + name + ".__generic_variants[key]\n\n"@ + "end\n"@
        + "setmetatable("@ + name + ", __"@ + name + "Meta)\n"@
}

/// The population pass for one metatable: its base methods, its variants'
/// methods, and its call handler.
pub open spec fn spec_populate_one(name: Seq<char>, mt: Metatable) -> Seq<char> {
    spec_populate(name, mt.spec_methods()) + spec_populate_variants(name, mt.spec_variants())
        + spec_call_block(name)
}

/// The population pass of the module: every metatable in order.
pub open spec fn spec_populations(mts: Seq<(Seq<char>, Metatable)>) -> Seq<char>
    decreases mts.len(),
{
    if mts.len() == 0 {
        Seq::empty()
    } else {
        spec_populations(mts.drop_last()) + spec_populate_one(mts.last().0, mts.last().1)
    }
}

/// The entries of the module's returned table, one per metatable.
pub open spec fn spec_footer_entries(mts: Seq<(Seq<char>, Metatable)>) -> Seq<char>
    decreases mts.len(),
{
    if mts.len() == 0 {
        Seq::empty()
    } else {
        spec_footer_entries(mts.drop_last()) + mts.last().0 + " = "@ + mts.last().0 + ",\n"@
    }
}

/// The whole module's source text.
pub open spec fn spec_module_source(mts: Seq<(Seq<char>, Metatable)>) -> Seq<char> {
    spec_declarations(mts) + spec_populations(mts) + "return {\n"@ + spec_footer_entries(mts)
        + "}\n"@
}

} // verus!
