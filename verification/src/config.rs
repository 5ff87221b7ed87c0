//! The configuration file: its model, its parsing, and the lookups made in it.
//!
//! The configuration is a KDL document.  The library reads it through
//! `ConfigNode`, which holds of each KDL node what the configuration looks
//! at: its name, its first argument and its children.
use vstd::prelude::*;
use crate::collections::{distinct_keys, key_map, map_get, map_insert};
use crate::error::{Error, ParseConfigError};
use crate::text::{chars_of, owned, push_all, push_str, string_of};
use crate::paths::{join_path, parse_path, render_path, strip_path_prefix, PathView, ServerPath};
use crate::server_id::{default_alias, here, Location};

verus! {

/// Which block of the configuration a node belongs to.
#[derive(Debug, Clone, Copy, PartialEq, Eq)]
pub enum NodeClass {
    Aliases,
    Rcon,
}

/// Which node an error is about.
#[derive(Debug, Clone, PartialEq, Eq)]
pub struct NodeContext {
    pub node_name: String,
    pub parent_class: Option<NodeClass>,
}

/// The type that a value was expected to have.
#[derive(Debug, Clone, Copy, PartialEq, Eq)]
pub enum KdlValueType {
    String,
    Integer,
    Float,
    Bool,
}

/// A KDL value.  A float is only told apart from the other types.
#[derive(Debug, Clone, PartialEq, Eq)]
pub enum ConfigValue {
    String(String),
    Integer(i128),
    Float,
    Bool(bool),
    Null,
}

/// A KDL node: its name, its first argument, and its children block.
#[derive(Debug, PartialEq, Eq)]
pub struct ConfigNode {
    pub name: String,
    pub first_argument: Option<ConfigValue>,
    pub children: Option<Vec<ConfigNode>>,
}

impl NodeContext {
    /// The context of a node outside any block.
    pub fn new(node_name: String) -> (res: NodeContext)
        ensures
            res.node_name == node_name,
            res.parent_class is None,
    {
        NodeContext { node_name, parent_class: None }
    }

    /// The context of a node inside a block.
    pub fn with_parent_class(node_name: String, parent_class: NodeClass) -> (res: NodeContext)
        ensures
            res.node_name == node_name,
            res.parent_class == Some(parent_class),
    {
        NodeContext { node_name, parent_class: Some(parent_class) }
    }
}

/// `v` has the type `ty`.
pub open spec fn value_has_type(v: ConfigValue, ty: KdlValueType) -> bool {
    match ty {
        KdlValueType::String => v is String,
        KdlValueType::Integer => v is Integer,
        KdlValueType::Float => v is Float,
        KdlValueType::Bool => v is Bool,
    }
}

/// The node's first argument exists and has type `ty`.
pub open spec fn argument_is(n: ConfigNode, ty: KdlValueType) -> bool {
    n.first_argument matches Some(v) && value_has_type(v, ty)
}

/// `e` is the error of reading the first argument of `n`, inside the block
/// `parent`, as a `ty`: a missing argument is reported with the block, a
/// wrong type without it.
pub open spec fn read_error(e: ParseConfigError, n: ConfigNode, parent: Option<NodeClass>, ty: KdlValueType) -> bool {
    match n.first_argument {
        None => e matches ParseConfigError::ExpectedValue(c) && c.node_name@ == n.name@ && c.parent_class == parent,
        Some(_) => e matches ParseConfigError::InvalidType(c, t) && c.node_name@ == n.name@ && c.parent_class is None && t == ty,
    }
}

impl ConfigNode {
    /// The first argument.
    pub fn get_value(&self) -> (res: Result<&ConfigValue, ParseConfigError>)
        ensures
            res is Ok <==> self.first_argument is Some,
            res matches Ok(v) ==> self.first_argument == Some(*v),
            res matches Err(e) ==> (e matches ParseConfigError::ExpectedValue(c) && c.node_name@ == self.name@ && c.parent_class is None),
    {
        match &self.first_argument {
            Some(v) => Ok(v),
            None => Err(ParseConfigError::ExpectedValue(NodeContext::new(self.name.clone()))),
        }
    }

    /// The first argument, the node standing in the block `parent_class`.
    pub fn get_nested_value(&self, parent_class: NodeClass) -> (res: Result<&ConfigValue, ParseConfigError>)
        ensures
            res is Ok <==> self.first_argument is Some,
            res matches Ok(v) ==> self.first_argument == Some(*v),
            res matches Err(e) ==> (e matches ParseConfigError::ExpectedValue(c) && c.node_name@ == self.name@ && c.parent_class == Some(parent_class)),
    {
        match &self.first_argument {
            Some(v) => Ok(v),
            None => Err(ParseConfigError::ExpectedValue(NodeContext::with_parent_class(self.name.clone(), parent_class))),
        }
    }

    fn read_string(&self, parent: Option<NodeClass>) -> (res: Result<&String, ParseConfigError>)
        ensures
            res is Ok <==> argument_is(*self, KdlValueType::String),
            res matches Ok(s) ==> self.first_argument == Some(ConfigValue::String(*s)),
            res matches Err(e) ==> read_error(e, *self, parent, KdlValueType::String),
    {
        let v = match parent {
            Some(p) => self.get_nested_value(p),
            None => self.get_value(),
        };
        match v {
            Ok(ConfigValue::String(s)) => Ok(s),
            Ok(_) => Err(ParseConfigError::InvalidType(NodeContext::new(self.name.clone()), KdlValueType::String)),
            Err(e) => Err(e),
        }
    }

    fn read_integer(&self, parent: Option<NodeClass>) -> (res: Result<i128, ParseConfigError>)
        ensures
            res is Ok <==> argument_is(*self, KdlValueType::Integer),
            res matches Ok(i) ==> self.first_argument == Some(ConfigValue::Integer(i)),
            res matches Err(e) ==> read_error(e, *self, parent, KdlValueType::Integer),
    {
        let v = match parent {
            Some(p) => self.get_nested_value(p),
            None => self.get_value(),
        };
        match v {
            Ok(ConfigValue::Integer(i)) => Ok(*i),
            Ok(_) => Err(ParseConfigError::InvalidType(NodeContext::new(self.name.clone()), KdlValueType::Integer)),
            Err(e) => Err(e),
        }
    }

    fn read_bool(&self, parent: Option<NodeClass>) -> (res: Result<bool, ParseConfigError>)
        ensures
            res is Ok <==> argument_is(*self, KdlValueType::Bool),
            res matches Ok(b) ==> self.first_argument == Some(ConfigValue::Bool(b)),
            res matches Err(e) ==> read_error(e, *self, parent, KdlValueType::Bool),
    {
        let v = match parent {
            Some(p) => self.get_nested_value(p),
            None => self.get_value(),
        };
        match v {
            Ok(ConfigValue::Bool(b)) => Ok(*b),
            Ok(_) => Err(ParseConfigError::InvalidType(NodeContext::new(self.name.clone()), KdlValueType::Bool)),
            Err(e) => Err(e),
        }
    }

    /// The first argument as a string.
    pub fn get_string_value(&self) -> (res: Result<&String, ParseConfigError>)
        ensures
            res is Ok <==> argument_is(*self, KdlValueType::String),
            res matches Ok(s) ==> self.first_argument == Some(ConfigValue::String(*s)),
            res matches Err(e) ==> read_error(e, *self, None, KdlValueType::String),
    {
        self.read_string(None)
    }

    /// The first argument as an integer.
    pub fn get_integer_value(&self) -> (res: Result<i128, ParseConfigError>)
        ensures
            res is Ok <==> argument_is(*self, KdlValueType::Integer),
            res matches Ok(i) ==> self.first_argument == Some(ConfigValue::Integer(i)),
            res matches Err(e) ==> read_error(e, *self, None, KdlValueType::Integer),
    {
        self.read_integer(None)
    }

    /// The first argument as a boolean.
    pub fn get_bool_value(&self) -> (res: Result<bool, ParseConfigError>)
        ensures
            res is Ok <==> argument_is(*self, KdlValueType::Bool),
            res matches Ok(b) ==> self.first_argument == Some(ConfigValue::Bool(b)),
            res matches Err(e) ==> read_error(e, *self, None, KdlValueType::Bool),
    {
        self.read_bool(None)
    }

    /// The first argument as a string, the node standing in a block.
    pub fn get_nested_string_value(&self, parent_class: NodeClass) -> (res: Result<&String, ParseConfigError>)
        ensures
            res is Ok <==> argument_is(*self, KdlValueType::String),
            res matches Ok(s) ==> self.first_argument == Some(ConfigValue::String(*s)),
            res matches Err(e) ==> read_error(e, *self, Some(parent_class), KdlValueType::String),
    {
        self.read_string(Some(parent_class))
    }

    /// The first argument as an integer, the node standing in a block.
    pub fn get_nested_integer_value(&self, parent_class: NodeClass) -> (res: Result<i128, ParseConfigError>)
        ensures
            res is Ok <==> argument_is(*self, KdlValueType::Integer),
            res matches Ok(i) ==> self.first_argument == Some(ConfigValue::Integer(i)),
            res matches Err(e) ==> read_error(e, *self, Some(parent_class), KdlValueType::Integer),
    {
        self.read_integer(Some(parent_class))
    }

    /// The first argument as a boolean, the node standing in a block.
    pub fn get_nested_bool_value(&self, parent_class: NodeClass) -> (res: Result<bool, ParseConfigError>)
        ensures
            res is Ok <==> argument_is(*self, KdlValueType::Bool),
            res matches Ok(b) ==> self.first_argument == Some(ConfigValue::Bool(b)),
            res matches Err(e) ==> read_error(e, *self, Some(parent_class), KdlValueType::Bool),
    {
        self.read_bool(Some(parent_class))
    }
}

/// An alias: the node's name, and the server that its first argument names.
pub fn parse_alias(node: &ConfigNode) -> (res: Result<(String, String), ParseConfigError>)
    ensures
        res is Ok <==> argument_is(*node, KdlValueType::String),
        res matches Ok(pair) ==> pair.0@ == node.name@ && node.first_argument == Some(ConfigValue::String(pair.1)),
        res matches Err(e) ==> read_error(e, *node, Some(NodeClass::Aliases), KdlValueType::String),
{
    let reference = node.get_nested_string_value(NodeClass::Aliases)?.clone();
    Ok((node.name.clone(), reference))
}

/// The integer argument of a node.
pub open spec fn integer_argument(n: ConfigNode) -> i128 {
    n.first_argument->0->Integer_0
}

/// The node's integer argument, converted by `f`; a value that `f` refuses
/// is out of bounds.
pub fn transform_number<T, E, F: Fn(i128) -> Result<T, E>>(node: &ConfigNode, f: F, parent_class: Option<NodeClass>) -> (res: Result<T, ParseConfigError>)
    requires
        forall|i: i128| f.requires((i,)),
    ensures
        !argument_is(*node, KdlValueType::Integer) ==> (res matches Err(e) && read_error(e, *node, parent_class, KdlValueType::Integer)),
        argument_is(*node, KdlValueType::Integer) ==> exists|r: Result<T, E>| #[trigger] f.ensures((integer_argument(*node),), r) && match r {
            Ok(t) => res == Ok::<T, ParseConfigError>(t),
            Err(_) => res == Err::<T, ParseConfigError>(ParseConfigError::OutOfBounds(integer_argument(*node))),
        },
{
    let read = match parent_class {
        Some(p) => node.get_nested_integer_value(p),
        None => node.get_integer_value(),
    };
    match read {
        Err(e) => Err(e),
        Ok(integer) => {
            let r = f(integer);
            let ghost witness = r;
            let out = match r {
                Ok(t) => Ok(t),
                Err(_) => Err(ParseConfigError::OutOfBounds(integer)),
            };
            assert(f.ensures((integer,), witness));
            assert(integer == integer_argument(*node));
            assert(f.ensures((integer_argument(*node),), witness));
            out
        },
    }
}

/// The port number that an integer stands for, if it is one.
pub fn u16_from_integer(i: i128) -> (res: Result<u16, ()>)
    ensures
        res is Ok <==> 0 <= i <= 65535,
        res matches Ok(p) ==> p == i,
{
    if 0 <= i && i <= 65535 {
        Ok(i as u16)
    } else {
        Err(())
    }
}


/// The server console password; it never prints.
pub struct Password(pub String);

/// How to reach a server's remote console.
pub struct RconConfig {
    pub server_address: Option<String>,
    pub port: Option<u16>,
    pub password: Option<Password>,
}

/// The directory that holds the servers, as written in the configuration
/// (it may start with `~` and name environment variables), together with
/// what expanding it gave when it was read: every later use sees that one
/// expansion, or the error's message.
pub struct ServersDirectory {
    raw_string: String,
    expanded: Result<String, String>,
}

/// The configuration.
pub struct Config {
    /// Arguments given to `java` before the jar, each in double quotes.
    pub default_java_args: Vec<String>,
    /// Whether servers start without their window.
    pub nogui: bool,
    pub servers_directory: ServersDirectory,
    /// Other names for servers.
    pub aliases: Vec<(String, String)>,
    /// Remote-console settings, by server.
    pub rcon: Vec<(String, RconConfig)>,
}

/// The characters `~/Servers`.
pub open spec fn default_servers_directory() -> Seq<char> {
    seq!['~', '/', 'S', 'e', 'r', 'v', 'e', 'r', 's']
}

/// `shellexpand::full`, which expands a leading `~` to the home directory and
/// `$NAME` or `${NAME}` to the variable's value.  The result rests on the
/// environment; what is stated is only what the crate documents: text without
/// a leading `~` and without `$` comes back as it was.  On failure, the
/// error's message.
#[verifier::external_body]
fn shell_expand(raw: &str) -> (res: Result<String, String>)
    ensures
        !raw@.contains('$') && !(raw@.len() > 0 && raw@[0] == '~') ==> res == Ok::<String, String>(res->Ok_0) && res->Ok_0@ == raw@,
{
    match shellexpand::full(raw) {
        Ok(expanded) => Ok(expanded.into_owned()),
        Err(e) => Err(e.to_string()),
    }
}

impl ServersDirectory {
    /// The servers directory as written, expanded once.
    pub fn from(value: String) -> (res: ServersDirectory)
        ensures
            res.raw()@ == value@,
            plain_directory(value@) ==> res.expansion() == Some(value@),
    {
        let expanded = shell_expand(value.as_str());
        ServersDirectory { raw_string: value, expanded }
    }

    /// The text as written.
    pub closed spec fn raw(&self) -> String {
        self.raw_string
    }

    /// What expanding the text gave when it was read; none when it failed.
    pub closed spec fn expansion(&self) -> Option<Seq<char>> {
        match self.expanded {
            Ok(s) => Some(s@),
            Err(_) => None,
        }
    }

    /// The error that expanding the text failed with when it was read: a
    /// lookup error carrying the expansion's message (when the expansion
    /// succeeded, one carrying the text as written, which nothing returns).
    pub closed spec fn lookup_error(&self) -> Error {
        match self.expanded {
            Ok(_) => Error::ShellexpandLookup(self.raw_string),
            Err(m) => Error::ShellexpandLookup(m),
        }
    }

    /// `res` is what expanding the directory answers: the expansion made
    /// when it was read, or the error it failed with.
    pub open spec fn expanded_as(&self, res: Result<String, Error>) -> bool {
        &&& (res is Ok <==> self.expansion() is Some)
        &&& (res matches Ok(s) ==> s@ == self.expansion()->0)
        &&& (res matches Err(e) ==> e == self.lookup_error())
        &&& self.lookup_error() is ShellexpandLookup
    }

    /// The text as written.
    pub fn raw_string(&self) -> (res: &String)
        ensures
            *res == self.raw(),
    {
        &self.raw_string
    }

    /// The servers directory with `~` and variables expanded: the expansion
    /// made when it was read, the same on every call.
    pub fn expand(&self) -> (res: Result<String, Error>)
        ensures
            self.expanded_as(res),
    {
        match &self.expanded {
            Ok(s) => Ok(s.clone()),
            Err(m) => Err(Error::ShellexpandLookup(m.clone())),
        }
    }
}

/// Expanding the servers directory twice gives the same directory, or fails
/// both times: every use sees the expansion made when it was read.
pub proof fn expansion_is_kept(dir: ServersDirectory, first: Result<String, Error>, second: Result<String, Error>)
    requires
        dir.expanded_as(first),
        dir.expanded_as(second),
    ensures
        first is Ok <==> second is Ok,
        first matches Ok(a) ==> (second matches Ok(b) && a@ == b@),
{
}

/// Text that `shellexpand::full` gives back unchanged: it does not start
/// with `~` and names no variable.
pub open spec fn plain_directory(raw: Seq<char>) -> bool {
    !raw.contains('$') && !(raw.len() > 0 && raw[0] == '~')
}

impl ServersDirectory {
    /// The servers directory with `~` and variables expanded, as a path.
    pub fn expanded_path(&self) -> (res: Result<ServerPath, Error>)
        ensures
            self.expansion() matches Some(t) ==> (res matches Ok(p) && p@ == parse_path(t)),
            self.expansion() is None ==> (res matches Err(e) && e == self.lookup_error()),
            self.lookup_error() is ShellexpandLookup,
    {
        let text = self.expand()?;
        Ok(ServerPath::parse(text.as_str()))
    }
}

/// The first node named `name`, as `KdlDocument::get` finds it.
pub open spec fn first_named(nodes: Seq<ConfigNode>, name: Seq<char>) -> Option<ConfigNode>
    decreases nodes.len(),
{
    if nodes.len() == 0 {
        None
    } else if nodes[0].name@ == name {
        Some(nodes[0])
    } else {
        first_named(nodes.drop_first(), name)
    }
}

/// The children of a node; none without a children block.
pub open spec fn children_of(n: ConfigNode) -> Seq<ConfigNode> {
    match n.children {
        Some(c) => c@,
        None => Seq::empty(),
    }
}

/// Where the first node named `name` stands.
pub fn find_named(nodes: &Vec<ConfigNode>, name: &str) -> (res: Option<usize>)
    ensures
        res is None ==> first_named(nodes@, name@) is None,
        res matches Some(i) ==> i < nodes@.len() && first_named(nodes@, name@) == Some(nodes@[i as int]),
{
    let key = owned(name);
    let mut i: usize = 0;
    assert(nodes@.subrange(0, nodes@.len() as int) =~= nodes@);
    while i < nodes.len()
        invariant
            i <= nodes.len(),
            key@ == name@,
            first_named(nodes@, name@) == first_named(nodes@.subrange(i as int, nodes@.len() as int), name@),
        decreases nodes.len() - i,
    {
        let ghost rest = nodes@.subrange(i as int, nodes@.len() as int);
        assert(rest.drop_first() =~= nodes@.subrange(i + 1, nodes@.len() as int));
        if nodes[i].name == key {
            return Some(i);
        }
        i = i + 1;
    }
    assert(nodes@.subrange(i as int, nodes@.len() as int).len() == 0);
    None
}

/// `m`, if present, has a first argument of type `ty`.
pub open spec fn optional_argument_is(m: Option<ConfigNode>, ty: KdlValueType) -> bool {
    match m {
        None => true,
        Some(n) => argument_is(n, ty),
    }
}

/// `m`, if present, gives a port number.
pub open spec fn optional_port_ok(m: Option<ConfigNode>) -> bool {
    match m {
        None => true,
        Some(n) => n.first_argument matches Some(ConfigValue::Integer(i)) && 0 <= i <= 65535,
    }
}

/// An entry of the `rcon` block that reads well.
pub open spec fn rcon_entry_ok(n: ConfigNode) -> bool {
    let ch = children_of(n);
    &&& n.children is Some
    &&& optional_argument_is(first_named(ch, seq!['s', 'e', 'r', 'v', 'e', 'r', '_', 'a', 'd', 'd', 'r', 'e', 's', 's']), KdlValueType::String)
    &&& optional_port_ok(first_named(ch, seq!['p', 'o', 'r', 't']))
    &&& optional_argument_is(first_named(ch, seq!['p', 'a', 's', 's', 'w', 'o', 'r', 'd']), KdlValueType::String)
}

/// `e` is the error of reading the `rcon` entry `n`: no children block, then
/// the address, the port and the password, in that order.
pub open spec fn rcon_entry_error(e: ParseConfigError, n: ConfigNode) -> bool {
    let ch = children_of(n);
    let sa = first_named(ch, seq!['s', 'e', 'r', 'v', 'e', 'r', '_', 'a', 'd', 'd', 'r', 'e', 's', 's']);
    let port = first_named(ch, seq!['p', 'o', 'r', 't']);
    let pw = first_named(ch, seq!['p', 'a', 's', 's', 'w', 'o', 'r', 'd']);
    if n.children is None {
        e == ParseConfigError::ExpectedChildren(NodeClass::Rcon)
    } else if !optional_argument_is(sa, KdlValueType::String) {
        read_error(e, sa->0, Some(NodeClass::Rcon), KdlValueType::String)
    } else if !optional_argument_is(port, KdlValueType::Integer) {
        read_error(e, port->0, Some(NodeClass::Rcon), KdlValueType::Integer)
    } else if !optional_port_ok(port) {
        e == ParseConfigError::OutOfBounds(port->0.first_argument->0->Integer_0)
    } else {
        read_error(e, pw->0, Some(NodeClass::Rcon), KdlValueType::String)
    }
}

/// `v` holds the text of the optional string argument of `m`.
pub open spec fn optional_string_matches(v: Option<String>, m: Option<ConfigNode>) -> bool {
    match m {
        None => v is None,
        Some(n) => v matches Some(s) && n.first_argument == Some(ConfigValue::String(s)),
    }
}

/// `r` holds what the `rcon` entry `n` says.
pub open spec fn rcon_entry_value(r: RconConfig, n: ConfigNode) -> bool {
    let ch = children_of(n);
    let port = first_named(ch, seq!['p', 'o', 'r', 't']);
    &&& optional_string_matches(r.server_address, first_named(ch, seq!['s', 'e', 'r', 'v', 'e', 'r', '_', 'a', 'd', 'd', 'r', 'e', 's', 's']))
    &&& match port {
        None => r.port is None,
        Some(p) => r.port matches Some(x) && p.first_argument == Some(ConfigValue::Integer(x as i128)),
    }
    &&& match first_named(ch, seq!['p', 'a', 's', 's', 'w', 'o', 'r', 'd']) {
        None => r.password is None,
        Some(p) => r.password matches Some(pw) && p.first_argument == Some(ConfigValue::String(pw.0)),
    }
}

fn read_optional_string(children: &Vec<ConfigNode>, key: &str) -> (res: Result<Option<String>, ParseConfigError>)
    ensures
        res is Ok <==> optional_argument_is(first_named(children@, key@), KdlValueType::String),
        res matches Ok(v) ==> optional_string_matches(v, first_named(children@, key@)),
        res matches Err(e) ==> read_error(e, first_named(children@, key@)->0, Some(NodeClass::Rcon), KdlValueType::String),
{
    match find_named(children, key) {
        None => Ok(None),
        Some(i) => {
            let s = children[i].get_nested_string_value(NodeClass::Rcon)?;
            Ok(Some(s.clone()))
        },
    }
}

/// One entry of the `rcon` block: the server's name, and how to reach its
/// console.
pub fn parse_rcon_config(node: &ConfigNode) -> (res: Result<(String, RconConfig), ParseConfigError>)
    ensures
        res is Ok <==> rcon_entry_ok(*node),
        res matches Ok(pair) ==> pair.0@ == node.name@ && rcon_entry_value(pair.1, *node),
        res matches Err(e) ==> rcon_entry_error(e, *node),
{
    let children = match &node.children {
        Some(c) => c,
        None => {
            return Err(ParseConfigError::ExpectedChildren(NodeClass::Rcon));
        },
    };
    proof {
        reveal_strlit("server_address");
        reveal_strlit("port");
        reveal_strlit("password");
        assert("server_address"@ =~= seq!['s', 'e', 'r', 'v', 'e', 'r', '_', 'a', 'd', 'd', 'r', 'e', 's', 's']);
        assert("port"@ =~= seq!['p', 'o', 'r', 't']);
        assert("password"@ =~= seq!['p', 'a', 's', 's', 'w', 'o', 'r', 'd']);
    }
    let server_address = read_optional_string(children, "server_address")?;
    let port = match find_named(children, "port") {
        None => None,
        Some(i) => Some(transform_number(&children[i], u16_from_integer, Some(NodeClass::Rcon))?),
    };
    let password = match read_optional_string(children, "password")? {
        Some(p) => Some(Password(p)),
        None => None,
    };
    Ok((node.name.clone(), RconConfig { server_address, port, password }))
}

/// Each alias of `aliases` entries, the last entry for a name winning.
pub open spec fn alias_map(entries: Seq<ConfigNode>) -> Map<Seq<char>, Seq<char>>
    decreases entries.len(),
{
    if entries.len() == 0 {
        Map::empty()
    } else {
        alias_map(entries.drop_last()).insert(entries.last().name@, entries.last().first_argument->0->String_0@)
    }
}

/// Each entry of the `rcon` block by name, the last entry for a name winning.
pub open spec fn rcon_nodes(entries: Seq<ConfigNode>) -> Map<Seq<char>, ConfigNode>
    decreases entries.len(),
{
    if entries.len() == 0 {
        Map::empty()
    } else {
        rcon_nodes(entries.drop_last()).insert(entries.last().name@, entries.last())
    }
}

/// The text of the values of a map of strings.
pub open spec fn text_values(m: Map<Seq<char>, String>) -> Map<Seq<char>, Seq<char>> {
    m.map_values(|s: String| s@)
}

/// The `aliases` entries read well.
pub open spec fn aliases_ok(entries: Seq<ConfigNode>) -> bool {
    forall|i: int| 0 <= i < entries.len() ==> argument_is(#[trigger] entries[i], KdlValueType::String)
}

/// The `rcon` entries read well.
pub open spec fn rcon_ok(entries: Seq<ConfigNode>) -> bool {
    forall|i: int| 0 <= i < entries.len() ==> rcon_entry_ok(#[trigger] entries[i])
}

/// The alias entries, in order: the map of aliases they make.
fn collect_aliases(entries: &Vec<ConfigNode>) -> (res: Result<Vec<(String, String)>, ParseConfigError>)
    ensures
        res is Ok <==> aliases_ok(entries@),
        res matches Ok(v) ==> distinct_keys(v@) && text_values(key_map(v@)) == alias_map(entries@),
        res matches Err(e) ==> exists|i: int| 0 <= i < entries@.len() && aliases_ok(entries@.take(i))
            && !argument_is(entries@[i], KdlValueType::String)
            && read_error(e, entries@[i], Some(NodeClass::Aliases), KdlValueType::String),
{
    let mut out: Vec<(String, String)> = Vec::new();
    let mut i: usize = 0;
    assert(text_values(key_map(out@)) =~= Map::<Seq<char>, Seq<char>>::empty());
    while i < entries.len()
        invariant
            i <= entries.len(),
            distinct_keys(out@),
            aliases_ok(entries@.take(i as int)),
            text_values(key_map(out@)) == alias_map(entries@.take(i as int)),
        decreases entries.len() - i,
    {
        assert(entries@.take(i + 1).drop_last() =~= entries@.take(i as int));
        match parse_alias(&entries[i]) {
            Ok((name, server)) => {
                let ghost before = key_map(out@);
                map_insert(&mut out, name, server);
                proof {
                    assert(text_values(key_map(out@)) =~= text_values(before).insert(name@, server@));
                    assert forall|k: int| 0 <= k < i + 1 implies argument_is(#[trigger] entries@.take(i + 1)[k], KdlValueType::String) by {
                        if k < i {
                            assert(entries@.take(i + 1)[k] == entries@.take(i as int)[k]);
                        }
                    }
                }
            },
            Err(e) => {
                return Err(e);
            },
        }
        i = i + 1;
    }
    assert(entries@.take(i as int) =~= entries@);
    Ok(out)
}

/// The `rcon` entries, in order: the map of console settings they make.
fn collect_rcon(entries: &Vec<ConfigNode>) -> (res: Result<Vec<(String, RconConfig)>, ParseConfigError>)
    ensures
        res is Ok <==> rcon_ok(entries@),
        res matches Ok(v) ==> distinct_keys(v@) && key_map(v@).dom() == rcon_nodes(entries@).dom()
            && forall|k: Seq<char>| #[trigger] key_map(v@).contains_key(k) ==> rcon_entry_value(key_map(v@)[k], rcon_nodes(entries@)[k]),
        res matches Err(e) ==> exists|i: int| 0 <= i < entries@.len() && rcon_ok(entries@.take(i))
            && !rcon_entry_ok(entries@[i]) && rcon_entry_error(e, entries@[i]),
{
    let mut out: Vec<(String, RconConfig)> = Vec::new();
    let mut i: usize = 0;
    assert(key_map(out@).dom() =~= rcon_nodes(entries@.take(0)).dom());
    while i < entries.len()
        invariant
            i <= entries.len(),
            distinct_keys(out@),
            rcon_ok(entries@.take(i as int)),
            key_map(out@).dom() == rcon_nodes(entries@.take(i as int)).dom(),
            forall|k: Seq<char>| #[trigger] key_map(out@).contains_key(k) ==> rcon_entry_value(key_map(out@)[k], rcon_nodes(entries@.take(i as int))[k]),
        decreases entries.len() - i,
    {
        assert(entries@.take(i + 1).drop_last() =~= entries@.take(i as int));
        match parse_rcon_config(&entries[i]) {
            Ok((name, rc)) => {
                let ghost before = out@;
                let ghost value = rc;
                map_insert(&mut out, name, rc);
                proof {
                    let nodes = rcon_nodes(entries@.take(i + 1));
                    assert(nodes == rcon_nodes(entries@.take(i as int)).insert(name@, entries@[i as int]));
                    assert(key_map(out@).dom() =~= nodes.dom());
                    assert forall|k: Seq<char>| #[trigger] key_map(out@).contains_key(k) implies rcon_entry_value(key_map(out@)[k], nodes[k]) by {
                        if k != name@ {
                            assert(key_map(before).contains_key(k));
                        }
                    }
                    assert forall|k: int| 0 <= k < i + 1 implies rcon_entry_ok(#[trigger] entries@.take(i + 1)[k]) by {
                        if k < i {
                            assert(entries@.take(i + 1)[k] == entries@.take(i as int)[k]);
                        }
                    }
                }
            },
            Err(e) => {
                return Err(e);
            },
        }
        i = i + 1;
    }
    assert(entries@.take(i as int) =~= entries@);
    Ok(out)
}


/// The children of the node, if there is one.
pub open spec fn entries_of(m: Option<ConfigNode>) -> Seq<ConfigNode> {
    match m {
        Some(n) => children_of(n),
        None => Seq::empty(),
    }
}

/// A name in double quotes.
pub open spec fn quoted(name: Seq<char>) -> Seq<char> {
    seq!['"'] + name + seq!['"']
}

/// The names of the nodes, each in double quotes.
pub open spec fn quoted_names(nodes: Seq<ConfigNode>) -> Seq<Seq<char>> {
    Seq::new(nodes.len(), |i: int| quoted(nodes[i].name@))
}

/// The Java arguments of a configuration read from `nodes` are the
/// children of the `default_java_args` node, every one of them and in their
/// order, each name in double quotes.
pub proof fn java_args_are_the_quoted_children(c: Config, nodes: Seq<ConfigNode>)
    requires
        config_matches(c, nodes),
    ensures
        ({
            let ch = entries_of(first_named(nodes, "default_java_args"@));
            &&& c.default_java_args@.len() == ch.len()
            &&& forall|i: int| 0 <= i < ch.len() ==> #[trigger] c.default_java_args@[i]@ == seq!['"'] + ch[i].name@ + seq!['"']
        }),
{
    let ch = entries_of(first_named(nodes, "default_java_args"@));
    assert(views_of_strings(c.default_java_args@).len() == c.default_java_args@.len());
    assert forall|i: int| 0 <= i < ch.len() implies #[trigger] c.default_java_args@[i]@ == seq!['"'] + ch[i].name@ + seq!['"'] by {
        assert(views_of_strings(c.default_java_args@)[i] == c.default_java_args@[i]@);
        assert(quoted_names(ch)[i] == quoted(ch[i].name@));
    }
}

/// Every setting of the document reads well.
pub open spec fn config_ok(nodes: Seq<ConfigNode>) -> bool {
    &&& optional_argument_is(first_named(nodes, "nogui"@), KdlValueType::Bool)
    &&& optional_argument_is(first_named(nodes, "servers_directory"@), KdlValueType::String)
    &&& aliases_ok(entries_of(first_named(nodes, "aliases"@)))
    &&& rcon_ok(entries_of(first_named(nodes, "rcon"@)))
}

/// `e` is the error of reading the document: the first setting that does
/// not read well, in the order `nogui`, `servers_directory`, `aliases`,
/// `rcon`, and within a block its first entry that does not.
pub open spec fn config_error(e: Error, nodes: Seq<ConfigNode>) -> bool {
    let ng = first_named(nodes, "nogui"@);
    let sd = first_named(nodes, "servers_directory"@);
    let al = entries_of(first_named(nodes, "aliases"@));
    let rc = entries_of(first_named(nodes, "rcon"@));
    e matches Error::ParseConfigError(pe) && if !optional_argument_is(ng, KdlValueType::Bool) {
        read_error(pe, ng->0, None, KdlValueType::Bool)
    } else if !optional_argument_is(sd, KdlValueType::String) {
        read_error(pe, sd->0, None, KdlValueType::String)
    } else if !aliases_ok(al) {
        exists|i: int| 0 <= i < al.len() && aliases_ok(al.take(i)) && !argument_is(al[i], KdlValueType::String)
            && read_error(pe, al[i], Some(NodeClass::Aliases), KdlValueType::String)
    } else {
        exists|i: int| 0 <= i < rc.len() && rcon_ok(rc.take(i)) && !rcon_entry_ok(rc[i]) && rcon_entry_error(pe, rc[i])
    }
}

/// The configuration holds what the document says, with the defaults for
/// what it leaves out: no java arguments, `nogui` on, `~/Servers`, and no
/// aliases or console settings.
pub open spec fn config_matches(c: Config, nodes: Seq<ConfigNode>) -> bool {
    let rc = entries_of(first_named(nodes, "rcon"@));
    &&& views_of_strings(c.default_java_args@) == quoted_names(entries_of(first_named(nodes, "default_java_args"@)))
    &&& c.nogui == match first_named(nodes, "nogui"@) {
        Some(n) => n.first_argument->0->Bool_0,
        None => true,
    }
    &&& c.servers_directory.raw()@ == match first_named(nodes, "servers_directory"@) {
        Some(n) => n.first_argument->0->String_0@,
        None => default_servers_directory(),
    }
    &&& distinct_keys(c.aliases@)
    &&& text_values(key_map(c.aliases@)) == alias_map(entries_of(first_named(nodes, "aliases"@)))
    &&& distinct_keys(c.rcon@)
    &&& key_map(c.rcon@).dom() == rcon_nodes(rc).dom()
    &&& forall|k: Seq<char>| #[trigger] key_map(c.rcon@).contains_key(k) ==> rcon_entry_value(key_map(c.rcon@)[k], rcon_nodes(rc)[k])
}

/// The characters of each string.
pub open spec fn views_of_strings(v: Seq<String>) -> Seq<Seq<char>> {
    crate::paths::views_of(v)
}

impl Config {
    /// Each alias and each console entry occurs once.
    pub open spec fn wf(&self) -> bool {
        distinct_keys(self.aliases@) && distinct_keys(self.rcon@)
    }
}

fn quoted_child_names(node: &ConfigNode) -> (res: Vec<String>)
    ensures
        views_of_strings(res@) == quoted_names(children_of(*node)),
{
    let mut res: Vec<String> = Vec::new();
    match &node.children {
        None => {
            assert(views_of_strings(res@) =~= quoted_names(children_of(*node)));
            res
        },
        Some(children) => {
            let mut i: usize = 0;
            while i < children.len()
                invariant
                    i <= children.len(),
                    node.children == Some(*children),
                    views_of_strings(res@) == quoted_names(children@.take(i as int)),
                decreases children.len() - i,
            {
                let mut text: Vec<char> = Vec::new();
                text.push('"');
                push_str(&mut text, children[i].name.as_str());
                text.push('"');
                let ghost prev = res@;
                let item = string_of(&text);
                res.push(item);
                proof {
                    crate::paths::lemma_views_push(prev, item);
                    assert(text@ =~= quoted(children@[i as int].name@));
                }
                i = i + 1;
                assert(views_of_strings(res@) =~= quoted_names(children@.take(i as int)));
            }
            assert(children@.take(i as int) =~= children@);
            res
        },
    }
}

/// Reads the configuration from the nodes of its document.
pub fn parse_config(document: &Vec<ConfigNode>) -> (res: Result<Config, Error>)
    ensures
        res is Ok <==> config_ok(document@),
        res matches Ok(c) ==> config_matches(c, document@) && c.wf(),
        res matches Err(e) ==> config_error(e, document@),
{
    let default_java_args = match find_named(document, "default_java_args") {
        Some(i) => quoted_child_names(&document[i]),
        None => {
            let v: Vec<String> = Vec::new();
            assert(views_of_strings(v@) =~= quoted_names(Seq::<ConfigNode>::empty()));
            v
        },
    };
    let nogui = match find_named(document, "nogui") {
        Some(i) => match document[i].get_bool_value() {
            Ok(b) => b,
            Err(e) => {
                return Err(Error::ParseConfigError(e));
            },
        },
        None => true,
    };
    let servers_directory = match find_named(document, "servers_directory") {
        Some(i) => match document[i].get_string_value() {
            Ok(s) => ServersDirectory::from(s.clone()),
            Err(e) => {
                return Err(Error::ParseConfigError(e));
            },
        },
        None => {
            proof {
                reveal_strlit("~/Servers");
                assert("~/Servers"@ =~= default_servers_directory());
            }
            ServersDirectory::from(owned("~/Servers"))
        },
    };
    let aliases = match find_named(document, "aliases") {
        Some(i) => match &document[i].children {
            Some(children) => match collect_aliases(children) {
                Ok(v) => v,
                Err(e) => {
                    proof {
                        assert(entries_of(first_named(document@, "aliases"@)) == children@);
                        let k = choose|k: int| 0 <= k < children@.len() && aliases_ok(children@.take(k))
                            && !argument_is(children@[k], KdlValueType::String)
                            && read_error(e, children@[k], Some(NodeClass::Aliases), KdlValueType::String);
                        assert(!aliases_ok(children@));
                    }
                    return Err(Error::ParseConfigError(e));
                },
            },
            None => {
                let v: Vec<(String, String)> = Vec::new();
                assert(text_values(key_map(v@)) =~= alias_map(Seq::<ConfigNode>::empty()));
                v
            },
        },
        None => {
            let v: Vec<(String, String)> = Vec::new();
            assert(text_values(key_map(v@)) =~= alias_map(Seq::<ConfigNode>::empty()));
            v
        },
    };
    let rcon = match find_named(document, "rcon") {
        Some(i) => match &document[i].children {
            Some(children) => match collect_rcon(children) {
                Ok(v) => v,
                Err(e) => {
                    proof {
                        assert(entries_of(first_named(document@, "rcon"@)) == children@);
                        let k = choose|k: int| 0 <= k < children@.len() && rcon_ok(children@.take(k))
                            && !rcon_entry_ok(children@[k]) && rcon_entry_error(e, children@[k]);
                        assert(!rcon_ok(children@));
                    }
                    return Err(Error::ParseConfigError(e));
                },
            },
            None => {
                let v: Vec<(String, RconConfig)> = Vec::new();
                assert(key_map(v@).dom() =~= rcon_nodes(Seq::<ConfigNode>::empty()).dom());
                v
            },
        },
        None => {
            let v: Vec<(String, RconConfig)> = Vec::new();
            assert(key_map(v@).dom() =~= rcon_nodes(Seq::<ConfigNode>::empty()).dom());
            v
        },
    };
    Ok(Config { default_java_args, nogui, servers_directory, aliases, rcon })
}


/// A KDL node as the `kdl` crate reads it: its name's value, its first
/// argument, and its children block printed back as KDL text.
#[derive(Debug)]
pub struct KdlEntry {
    pub name: String,
    pub first_argument: Option<ConfigValue>,
    pub children_text: Option<String>,
}

/// The top-level nodes of the KDL document `text`, as
/// `kdl::KdlDocument::parse` reads them; `None` when the text is not a KDL
/// document.
pub uninterp spec fn kdl_document_entries(text: Seq<char>) -> Option<Seq<KdlEntry>>;

/// The KDL node `text`, as `kdl::KdlNode::parse` reads it; `None` when the
/// text is not one KDL node.
pub uninterp spec fn kdl_node_entry(text: Seq<char>) -> Option<KdlEntry>;

/// `kdl::KdlDocument::parse`: the document's top-level nodes, each with its
/// name's value, its first argument (`KdlNode::get(0)`) and its children
/// block printed as text; or the parser's message, which is left unsaid.
#[verifier::external_body]
fn parse_kdl_document(text: &str) -> (res: Result<Vec<KdlEntry>, String>)
    ensures
        res is Ok <==> kdl_document_entries(text@) is Some,
        res matches Ok(entries) ==> entries@ == kdl_document_entries(text@)->0,
{
    let doc = kdl::KdlDocument::parse(text).map_err(|e| e.to_string())?;
    Ok(doc.nodes().iter().map(|n| KdlEntry {
        name: n.name().value().to_string(),
        first_argument: n.get(0).map(|v| match v {
            kdl::KdlValue::String(s) => ConfigValue::String(s.clone()),
            kdl::KdlValue::Integer(i) => ConfigValue::Integer(*i),
            kdl::KdlValue::Float(_) => ConfigValue::Float,
            kdl::KdlValue::Bool(b) => ConfigValue::Bool(*b),
            kdl::KdlValue::Null => ConfigValue::Null,
        }),
        children_text: n.children().map(|c| c.to_string()),
    }).collect())
}

/// A KDL node, seen as the record that reading the configuration uses: its
/// name's value, first argument and children block printed as text.
pub uninterp spec fn kdl_node_record(node: kdl::KdlNode) -> KdlEntry;

/// The record of a KDL node (`KdlNode::name`, `KdlNode::get(0)`,
/// `KdlNode::children` printed), as `kdl_node_record` names it.
#[verifier::external_body]
fn node_record(n: &kdl::KdlNode) -> (res: KdlEntry)
    ensures
        res == kdl_node_record(*n),
{
    KdlEntry {
        name: n.name().value().to_string(),
        first_argument: n.get(0).map(|v| match v {
            kdl::KdlValue::String(s) => ConfigValue::String(s.clone()),
            kdl::KdlValue::Integer(i) => ConfigValue::Integer(*i),
            kdl::KdlValue::Float(_) => ConfigValue::Float,
            kdl::KdlValue::Bool(b) => ConfigValue::Bool(*b),
            kdl::KdlValue::Null => ConfigValue::Null,
        }),
        children_text: n.children().map(|c| c.to_string()),
    }
}

/// `n` is the node that `e` reads as, its children read `depth` levels
/// deep: the same name and first argument, and the nodes of its children
/// block.
pub open spec fn entry_reads_as(e: KdlEntry, depth: nat, n: ConfigNode) -> bool
    decreases depth, 0nat,
{
    &&& n.name == e.name
    &&& n.first_argument == e.first_argument
    &&& match e.children_text {
        None => n.children is None,
        Some(t) => if depth == 0 {
            n.children is None
        } else {
            n.children matches Some(c) && document_reads_as(t@, (depth - 1) as nat, c@)
        },
    }
}

/// `nodes` are the nodes of the KDL document `text`, read `depth` levels
/// deep.
pub open spec fn document_reads_as(text: Seq<char>, depth: nat, nodes: Seq<ConfigNode>) -> bool
    decreases depth, 1nat,
{
    match kdl_document_entries(text) {
        None => false,
        Some(es) => es.len() == nodes.len() && forall|i: int| 0 <= i < es.len() ==> entry_reads_as(#[trigger] es[i], depth, nodes[i]),
    }
}

/// The children block of `e`, if any, reads as a document, `depth` levels
/// deep.
pub open spec fn entry_readable(e: KdlEntry, depth: nat) -> bool
    decreases depth, 0nat,
{
    match e.children_text {
        None => true,
        Some(t) => depth == 0 || document_readable(t@, (depth - 1) as nat),
    }
}

/// `text` is a KDL document whose children blocks read as documents too,
/// `depth` levels deep.
pub open spec fn document_readable(text: Seq<char>, depth: nat) -> bool
    decreases depth, 1nat,
{
    match kdl_document_entries(text) {
        None => false,
        Some(es) => forall|i: int| 0 <= i < es.len() ==> entry_readable(#[trigger] es[i], depth),
    }
}

/// The node that `e` reads as, its children read `depth` levels deep.
fn read_entry(e: KdlEntry, depth: usize) -> (res: Result<ConfigNode, String>)
    ensures
        res is Ok <==> entry_readable(e, depth as nat),
        res matches Ok(n) ==> entry_reads_as(e, depth as nat, n),
    decreases depth, 0nat,
{
    let ghost ge = e;
    let KdlEntry { name, first_argument, children_text } = e;
    let children = match children_text {
        None => None,
        Some(t) => {
            if depth == 0 {
                None
            } else {
                match read_document(t.as_str(), depth - 1) {
                    Ok(c) => Some(c),
                    Err(m) => return Err(m),
                }
            }
        },
    };
    Ok(ConfigNode { name, first_argument, children })
}

/// The nodes of the KDL document `text`, read `depth` levels deep.
fn read_document(text: &str, depth: usize) -> (res: Result<Vec<ConfigNode>, String>)
    ensures
        res is Ok <==> document_readable(text@, depth as nat),
        res matches Ok(nodes) ==> document_reads_as(text@, depth as nat, nodes@),
    decreases depth, 1nat,
{
    let entries = parse_kdl_document(text)?;
    let ghost es = entries@;
    let mut rest = entries;
    let mut nodes: Vec<ConfigNode> = Vec::new();
    assert(es.skip(0) =~= es);
    assert(es.len() == rest.len());
    while rest.len() > 0
        invariant
            nodes@.len() <= es.len(),
            es.len() <= usize::MAX,
            kdl_document_entries(text@) == Some(es),
            rest@ == es.skip(nodes@.len() as int),
            forall|i: int| 0 <= i < nodes@.len() ==> entry_readable(#[trigger] es[i], depth as nat),
            forall|i: int| 0 <= i < nodes@.len() ==> entry_reads_as(#[trigger] es[i], depth as nat, nodes@[i]),
        decreases rest.len(),
    {
        let ghost k = nodes@.len() as int;
        let e = rest.remove(0);
        proof {
            assert(e == es[k]);
            assert(rest@ =~= es.skip(k + 1));
        }
        match read_entry(e, depth) {
            Ok(n) => {
                nodes.push(n);
            },
            Err(m) => {
                proof {
                    assert(!entry_readable(es[k], depth as nat));
                    if document_readable(text@, depth as nat) {
                        assert(entry_readable(kdl_document_entries(text@)->0[k], depth as nat));
                    }
                }
                return Err(m);
            },
        }
    }
    Ok(nodes)
}

impl ConfigNode {
    /// The KDL node written in `text`.
    pub fn parse(text: &str) -> (res: Result<ConfigNode, Error>)
        ensures
            res is Ok <==> (kdl_node_entry(text@) matches Some(e) && entry_readable(e, text@.len())),
            res matches Ok(node) ==> entry_reads_as(kdl_node_entry(text@)->0, text@.len(), node),
            res matches Err(e) ==> e is KdlError,
    {
        let depth = chars_of(text).len();
        let node = match parse_node(text) {
            Ok(n) => n,
            Err(m) => return Err(Error::KdlError(m)),
        };
        let entry = node_record(&node);
        match read_entry(entry, depth) {
            Ok(node) => Ok(node),
            Err(m) => Err(Error::KdlError(m)),
        }
    }
}

/// The nodes of the KDL document written in `text`.
pub fn parse_document(text: &str) -> (res: Result<Vec<ConfigNode>, Error>)
    ensures
        res is Ok <==> document_readable(text@, text@.len()),
        res matches Ok(nodes) ==> document_reads_as(text@, text@.len(), nodes@),
        res matches Err(e) ==> e is KdlError,
{
    let depth = chars_of(text).len();
    match read_document(text, depth) {
        Ok(nodes) => Ok(nodes),
        Err(m) => Err(Error::KdlError(m)),
    }
}

/// Reads the configuration from the text of its file: a KDL document, then
/// its settings.
pub fn load(text: &str) -> (res: Result<Config, Error>)
    ensures
        !document_readable(text@, text@.len()) ==> (res matches Err(e) && e is KdlError),
        document_readable(text@, text@.len()) ==> exists|nodes: Seq<ConfigNode>| #[trigger] document_reads_as(text@, text@.len(), nodes) && {
            &&& res is Ok <==> config_ok(nodes)
            &&& res matches Ok(c) ==> config_matches(c, nodes) && c.wf()
            &&& res matches Err(e) ==> config_error(e, nodes)
        },
{
    let nodes = parse_document(text)?;
    let res = parse_config(&nodes);
    assert(document_reads_as(text@, text@.len(), nodes@));
    res
}

/// `res` is the server around the working directory, relative to the
/// servers directory `d`: the search's failure, or the directory it found
/// without `d` in front.
pub open spec fn current_server_result(loc: Location, d: PathView, res: Result<String, Error>) -> bool {
    match loc.enclosing_server {
        Err(f) => res matches Err(e) && f.reports(e),
        Ok(p) => match strip_path_prefix(p@, d) {
            Some(r) => res matches Ok(t) && t@ == render_path(r),
            None => res == Err::<String, Error>(Error::StripPrefix),
        },
    }
}

/// The server around the working directory, relative to `servers_dir`.
pub fn get_current_server_directory(servers_dir: &ServerPath, location: &Location) -> (res: Result<String, Error>)
    ensures
        current_server_result(*location, servers_dir@, res),
{
    match &location.enclosing_server {
        Err(f) => Err(f.to_error()),
        Ok(p) => match p.strip_prefix(servers_dir) {
            Some(r) => Ok(r.render()),
            None => Err(Error::StripPrefix),
        },
    }
}

/// `res` is what `server` resolves to when the servers directory is `d`:
/// `.` is the server around the working directory, other text is itself.
pub open spec fn server_or_current_result(server: Seq<char>, loc: Location, d: PathView, res: Result<String, Error>) -> bool {
    if server == here() {
        current_server_result(loc, d, res)
    } else {
        res matches Ok(t) && t@ == server
    }
}

/// The server named `server`: `.` is the server around the working
/// directory, relative to the servers directory; other text is itself.
pub fn server_or_current(server: String, config: &Config, location: &Location) -> (res: Result<String, Error>)
    ensures
        server@ != here() ==> res == Ok::<String, Error>(server),
        (res matches Err(e) && e is ShellexpandLookup)
            || exists|d: PathView| #[trigger] server_or_current_result(server@, *location, d, res),
        config.servers_directory.expansion() is Some ==>
            server_or_current_result(server@, *location, parse_path(config.servers_directory.expansion()->0), res),
        server@ == here() && config.servers_directory.expansion() is None ==>
            (res matches Err(e) && e == config.servers_directory.lookup_error()),
{
    let dot = owned(".");
    proof {
        reveal_strlit(".");
        assert(dot@ =~= here());
    }
    if server == dot {
        let servers = config.servers_directory.expanded_path()?;
        let res = get_current_server_directory(&servers, location);
        assert(server_or_current_result(server@, *location, servers@, res));
        res
    } else {
        let ghost s = server@;
        let res = Ok(server);
        assert(server_or_current_result(s, *location, parse_path(s), res));
        res
    }
}

/// The server argument of a command: the server given, resolved as in
/// [`server_or_current`], or else the one that the alias `default` names.
pub fn handle_server_arg(server: Option<String>, config: &Config, location: &Location) -> (res: Result<String, Error>)
    requires
        config.wf(),
    ensures
        server matches Some(s) ==> ((res matches Err(e) && e is ShellexpandLookup)
            || exists|d: PathView| #[trigger] server_or_current_result(s@, *location, d, res)),
        server matches Some(s) ==> (config.servers_directory.expansion() is Some ==>
            server_or_current_result(s@, *location, parse_path(config.servers_directory.expansion()->0), res)),
        server matches Some(s) ==> (s@ != here() ==> res == Ok::<String, Error>(s)),
        server matches Some(s) ==> (s@ == here() && config.servers_directory.expansion() is None ==>
            (res matches Err(e) && e == config.servers_directory.lookup_error())),
        server is None && key_map(config.aliases@).contains_key(default_alias()) ==>
            res == Ok::<String, Error>(key_map(config.aliases@)[default_alias()]),
        server is None && !key_map(config.aliases@).contains_key(default_alias()) ==>
            res == Err::<String, Error>(Error::NoDefaultServer),
{
    match server {
        Some(s) => server_or_current(s, config, location),
        None => {
            proof {
                reveal_strlit("default");
                assert("default"@ =~= default_alias());
            }
            match map_get(&config.aliases, "default") {
                Some(d) => Ok(d.clone()),
                None => Err(Error::NoDefaultServer),
            }
        },
    }
}

/// The name of the configuration's directory, inside the user's
/// configuration directory.
pub const CONFIG_DIRECTORY_NAME: &'static str = "mcserver";

/// The name of the configuration file.
pub const CONFIG_FILE_NAME: &'static str = "config.kdl";

/// `dirs::config_dir`: the user's configuration directory, as text, when the
/// platform has one.  It rests on the environment, so nothing is stated of
/// it.
#[verifier::external_body]
fn user_config_dir() -> (res: Option<String>) {
    dirs::config_dir().map(|p| p.to_string_lossy().into_owned())
}

/// The directory of the configuration inside the user's configuration
/// directory `user_dir`: `mcserver` joined to it.
pub fn config_directory_in(user_dir: &str) -> (res: ServerPath)
    ensures
        res@ == join_path(parse_path(user_dir@), parse_path(CONFIG_DIRECTORY_NAME@)),
{
    ServerPath::parse(user_dir).join_str(CONFIG_DIRECTORY_NAME)
}

/// The directory of the configuration: `mcserver` inside the user's
/// configuration directory; fails when there is none.
pub fn get_directory() -> (res: Result<ServerPath, Error>)
    ensures
        res is Err ==> res == Err::<ServerPath, Error>(Error::UnresolvedConfigDirectory),
        res matches Ok(p) ==> exists|d: Seq<char>| p@ == #[trigger] join_path(parse_path(d), parse_path(CONFIG_DIRECTORY_NAME@)),
{
    match user_config_dir() {
        Some(d) => Ok(config_directory_in(d.as_str())),
        None => Err(Error::UnresolvedConfigDirectory),
    }
}

/// The configuration file in the configuration directory `dir`.
pub fn config_file_path(dir: &ServerPath) -> (res: ServerPath)
    ensures
        res@ == join_path(dir@, parse_path(CONFIG_FILE_NAME@)),
{
    dir.join_str(CONFIG_FILE_NAME)
}

/// Whether `c` is alphabetic by Unicode's `Alphabetic` property, as
/// `char::is_alphabetic` reports it.
pub uninterp spec fn unicode_alphabetic(c: char) -> bool;

/// `char::is_alphabetic`, whose result is named by `unicode_alphabetic`.
#[verifier::external_body]
fn is_alphabetic(c: char) -> (res: bool)
    ensures
        res == unicode_alphabetic(c),
{
    c.is_alphabetic()
}

/// `s` with a backslash before each double quote.
pub open spec fn escape_quotes(s: Seq<char>) -> Seq<char>
    decreases s.len(),
{
    if s.len() == 0 {
        Seq::empty()
    } else if s.last() == '"' {
        escape_quotes(s.drop_last()) + seq!['\\', '"']
    } else {
        escape_quotes(s.drop_last()).push(s.last())
    }
}

/// How a name is written in the configuration: as it is when every
/// character is alphabetic, else in double quotes with its quotes escaped.
pub open spec fn kdl_string(raw: Seq<char>) -> Seq<char> {
    if forall|i: int| 0 <= i < raw.len() ==> unicode_alphabetic(#[trigger] raw[i]) {
        raw
    } else {
        seq!['"'] + escape_quotes(raw) + seq!['"']
    }
}

/// How a name is written in the configuration.
pub fn transform_to_kdl_string(raw_str: &str) -> (res: String)
    ensures
        res@ == kdl_string(raw_str@),
{
    let cs = chars_of(raw_str);
    let mut i: usize = 0;
    let mut all_alphabetic = true;
    while i < cs.len()
        invariant
            i <= cs.len(),
            cs@ == raw_str@,
            all_alphabetic == forall|j: int| 0 <= j < i ==> unicode_alphabetic(#[trigger] cs@[j]),
        decreases cs.len() - i,
    {
        if !is_alphabetic(cs[i]) {
            all_alphabetic = false;
        }
        i = i + 1;
    }
    if all_alphabetic {
        return owned(raw_str);
    }
    let mut out: Vec<char> = vec!['"'];
    let mut k: usize = 0;
    assert(cs@.take(0) =~= Seq::<char>::empty());
    while k < cs.len()
        invariant
            k <= cs.len(),
            out@ == seq!['"'] + escape_quotes(cs@.take(k as int)),
        decreases cs.len() - k,
    {
        proof {
            assert(cs@.take(k + 1).drop_last() =~= cs@.take(k as int));
            assert(cs@.take(k + 1).last() == cs@[k as int]);
        }
        if cs[k] == '"' {
            out.push('\\');
            out.push('"');
        } else {
            out.push(cs[k]);
        }
        k = k + 1;
        assert(out@ =~= seq!['"'] + escape_quotes(cs@.take(k as int)));
    }
    out.push('"');
    assert(cs@.take(k as int) =~= cs@);
    assert(out@ =~= seq!['"'] + escape_quotes(raw_str@) + seq!['"']);
    string_of(&out)
}

/// A node of a KDL document as editing the configuration sees it: its
/// name's value, its first argument (read as in [`KdlEntry`]), its children
/// block's nodes, and the text before and after it when it has formatting.
pub struct DocNode {
    pub name: Seq<char>,
    pub first_argument: Option<ConfigValue>,
    pub children: Option<Seq<DocNode>>,
    pub format: Option<(Seq<char>, Seq<char>)>,
}

/// The node with its children block replaced.
pub open spec fn with_children(n: DocNode, children: Option<Seq<DocNode>>) -> DocNode {
    DocNode { name: n.name, first_argument: n.first_argument, children, format: n.format }
}

/// The position of the first node named `name` (`KdlDocument::get_mut`).
pub open spec fn first_index_named(nodes: Seq<DocNode>, name: Seq<char>) -> Option<int>
    decreases nodes.len(),
{
    if nodes.len() == 0 {
        None
    } else if nodes[0].name == name {
        Some(0)
    } else {
        match first_index_named(nodes.drop_first(), name) {
            Some(i) => Some(i + 1),
            None => None,
        }
    }
}

/// How many times `c` occurs in `s`.
pub open spec fn count_char(s: Seq<char>, c: char) -> nat
    decreases s.len(),
{
    if s.len() == 0 {
        0
    } else {
        count_char(s.drop_last(), c) + if s.last() == c { 1nat } else { 0nat }
    }
}

/// `n` newlines.
pub open spec fn newlines(n: nat) -> Seq<char> {
    Seq::new(n, |i: int| '\n')
}

/// The entry that maps `alias` to `server`, as it is added to an existing
/// aliases node.
pub open spec fn alias_entry_text(alias: Seq<char>, server: Seq<char>) -> Seq<char> {
    "    "@ + kdl_string(alias) + " "@ + kdl_string(server) + "\n"@
}

/// A new aliases node holding the one entry, with `lead` newlines before
/// and `trail` newlines after it.
pub open spec fn aliases_node_text(alias: Seq<char>, server: Seq<char>, lead: nat, trail: nat) -> Seq<char> {
    newlines(lead) + "aliases {\n    "@ + kdl_string(alias) + " "@ + kdl_string(server) + "\n}"@ + newlines(trail)
}

/// The newlines needed before and after a new aliases node put right after
/// a node with formatting `format`: enough for two before it, and one after
/// it when there is none; none when the node has no formatting.
pub open spec fn newlines_needed(format: Option<(Seq<char>, Seq<char>)>) -> (nat, nat) {
    match format {
        Some((leading, trailing)) => {
            let l = count_char(leading, '\n');
            let t = count_char(trailing, '\n');
            ((if l < 2 { (2 - l) as nat } else { 0nat }), (if t == 0 { 1nat } else { 0nat }))
        },
        None => (0nat, 0nat),
    }
}

/// Counts the newlines of `s`.
fn count_newlines(s: &String) -> (res: usize)
    ensures
        res == count_char(s@, '\n'),
{
    let cs = chars_of(s.as_str());
    let mut n: usize = 0;
    let mut i: usize = 0;
    assert(cs@.take(0) =~= Seq::<char>::empty());
    while i < cs.len()
        invariant
            i <= cs.len(),
            n <= i,
            n == count_char(cs@.take(i as int), '\n'),
        decreases cs.len() - i,
    {
        assert(cs@.take(i + 1).drop_last() =~= cs@.take(i as int));
        if cs[i] == '\n' {
            n = n + 1;
        }
        i = i + 1;
    }
    assert(cs@.take(i as int) =~= cs@);
    n
}

/// Pushes `n` newlines.
fn push_newlines(out: &mut Vec<char>, n: usize)
    ensures
        final(out)@ == old(out)@ + newlines(n as nat),
{
    let mut i: usize = 0;
    let ghost start = out@;
    while i < n
        invariant
            i <= n,
            out@ == start + newlines(i as nat),
        decreases n - i,
    {
        out.push('\n');
        i = i + 1;
        assert(out@ =~= start + newlines(i as nat));
    }
}

/// `kdl::KdlDocument`: a parsed KDL document, which keeps its formatting.
#[verifier::external_type_specification]
#[verifier::external_body]
pub struct ExKdlDocument(kdl::KdlDocument);

/// `kdl::KdlNode`: a node of a KDL document.
#[verifier::external_type_specification]
#[verifier::external_body]
pub struct ExKdlNode(kdl::KdlNode);

/// The top-level nodes of a KDL document, in order (`KdlDocument::nodes`).
pub uninterp spec fn kdl_document_nodes(doc: kdl::KdlDocument) -> Seq<DocNode>;

/// A KDL node, seen as a [`DocNode`].
pub uninterp spec fn kdl_node_parts(node: kdl::KdlNode) -> DocNode;

/// `KdlDocument::nodes`: how many top-level nodes the document has.
#[verifier::external_body]
fn node_count(doc: &kdl::KdlDocument) -> (res: usize)
    ensures
        res == kdl_document_nodes(*doc).len(),
{
    doc.nodes().len()
}

/// The name's value (`KdlNode::name`, `KdlIdentifier::value`) of the
/// top-level node at `i`.
#[verifier::external_body]
fn node_name(doc: &kdl::KdlDocument, i: usize) -> (res: String)
    requires
        i < kdl_document_nodes(*doc).len(),
    ensures
        res@ == kdl_document_nodes(*doc)[i as int].name,
{
    doc.nodes()[i].name().value().to_string()
}

/// `KdlNode::children`: whether the top-level node at `i` has a children
/// block.
#[verifier::external_body]
fn node_has_children(doc: &kdl::KdlDocument, i: usize) -> (res: bool)
    requires
        i < kdl_document_nodes(*doc).len(),
    ensures
        res == kdl_document_nodes(*doc)[i as int].children is Some,
{
    doc.nodes()[i].children().is_some()
}

/// `KdlNode::format`: the text before and after the top-level node at `i`
/// (`leading` and `trailing`), when it has formatting.
#[verifier::external_body]
fn node_format(doc: &kdl::KdlDocument, i: usize) -> (res: Option<(String, String)>)
    requires
        i < kdl_document_nodes(*doc).len(),
    ensures
        res is None <==> kdl_document_nodes(*doc)[i as int].format is None,
        res matches Some((l, t)) ==> kdl_document_nodes(*doc)[i as int].format == Some((l@, t@)),
{
    doc.nodes()[i].format().map(|f| (f.leading.clone(), f.trailing.clone()))
}

/// The name's value of the child at `j` of the top-level node at `i`
/// (`KdlNode::children`, `KdlDocument::nodes`, `KdlNode::name`).
#[verifier::external_body]
fn child_name(doc: &kdl::KdlDocument, i: usize, j: usize) -> (res: String)
    requires
        i < kdl_document_nodes(*doc).len(),
        kdl_document_nodes(*doc)[i as int].children matches Some(ch) && j < ch.len(),
    ensures
        res@ == kdl_document_nodes(*doc)[i as int].children->0[j as int].name,
{
    match doc.nodes()[i].children() {
        Some(c) => c.nodes()[j].name().value().to_string(),
        None => String::new(),
    }
}

/// How many children the top-level node at `i` has.
#[verifier::external_body]
fn child_count(doc: &kdl::KdlDocument, i: usize) -> (res: usize)
    requires
        i < kdl_document_nodes(*doc).len(),
        kdl_document_nodes(*doc)[i as int].children is Some,
    ensures
        res == kdl_document_nodes(*doc)[i as int].children->0.len(),
{
    match doc.nodes()[i].children() {
        Some(c) => c.nodes().len(),
        None => 0,
    }
}

/// `Vec::remove` on the children (`KdlNode::children_mut`,
/// `KdlDocument::nodes_mut`) of the top-level node at `i`: the child at `j`
/// leaves, the others keep their order, nothing else changes.
#[verifier::external_body]
fn remove_child(doc: &mut kdl::KdlDocument, i: usize, j: usize)
    requires
        i < kdl_document_nodes(*old(doc)).len(),
        kdl_document_nodes(*old(doc))[i as int].children matches Some(ch) && j < ch.len(),
    ensures
        kdl_document_nodes(*final(doc)) == kdl_document_nodes(*old(doc)).update(i as int, with_children(
            kdl_document_nodes(*old(doc))[i as int],
            Some(kdl_document_nodes(*old(doc))[i as int].children->0.remove(j as int)),
        )),
{
    if let Some(c) = doc.nodes_mut()[i].children_mut().as_mut() {
        c.nodes_mut().remove(j);
    }
}

/// `Vec::push` on the children of the top-level node at `i`: `node` comes
/// last, nothing else changes.
#[verifier::external_body]
fn push_child(doc: &mut kdl::KdlDocument, i: usize, node: kdl::KdlNode)
    requires
        i < kdl_document_nodes(*old(doc)).len(),
        kdl_document_nodes(*old(doc))[i as int].children is Some,
    ensures
        kdl_document_nodes(*final(doc)) == kdl_document_nodes(*old(doc)).update(i as int, with_children(
            kdl_document_nodes(*old(doc))[i as int],
            Some(kdl_document_nodes(*old(doc))[i as int].children->0.push(kdl_node_parts(node))),
        )),
{
    if let Some(c) = doc.nodes_mut()[i].children_mut().as_mut() {
        c.nodes_mut().push(node);
    }
}

/// `Vec::insert` on the top-level nodes (`KdlDocument::nodes_mut`): `node`
/// comes at `index`, the others keep their order.
#[verifier::external_body]
fn insert_node(doc: &mut kdl::KdlDocument, index: usize, node: kdl::KdlNode)
    requires
        index <= kdl_document_nodes(*old(doc)).len(),
    ensures
        kdl_document_nodes(*final(doc)) == kdl_document_nodes(*old(doc)).insert(index as int, kdl_node_parts(node)),
{
    doc.nodes_mut().insert(index, node);
}

/// `kdl::KdlNode::parse`: the node read from `text`, whose record is what
/// `kdl_node_entry` names, and whose name's value and first argument are
/// those of the record; or the parser's message, which is left unsaid.
#[verifier::external_body]
fn parse_node(text: &str) -> (res: Result<kdl::KdlNode, String>)
    ensures
        res is Ok <==> kdl_node_entry(text@) is Some,
        res matches Ok(n) ==> kdl_node_record(n) == kdl_node_entry(text@)->0,
        res matches Ok(n) ==> kdl_node_parts(n).name == kdl_node_record(n).name@
            && kdl_node_parts(n).first_argument == kdl_node_record(n).first_argument,
{
    kdl::KdlNode::parse(text).map_err(|e| e.to_string())
}

/// The nodes of `s`, in order, but those named `name`.
pub open spec fn without_named(s: Seq<DocNode>, name: Seq<char>) -> Seq<DocNode>
    decreases s.len(),
{
    if s.len() == 0 {
        Seq::empty()
    } else {
        let r = without_named(s.drop_last(), name);
        if s.last().name == name {
            r
        } else {
            r.push(s.last())
        }
    }
}

/// Where a new aliases node goes among `nodes`: right after the first
/// `rcon` node, or at the end without one.
pub open spec fn aliases_node_index(nodes: Seq<DocNode>) -> int {
    match first_index_named(nodes, "rcon"@) {
        Some(r) => r + 1,
        None => nodes.len() as int,
    }
}

/// The newlines around a new aliases node: as [`newlines_needed`] says for
/// the first `rcon` node, none without one.
pub open spec fn aliases_node_newlines(nodes: Seq<DocNode>) -> (nat, nat) {
    match first_index_named(nodes, "rcon"@) {
        Some(r) => newlines_needed(nodes[r].format),
        None => (0nat, 0nat),
    }
}

/// `d` is, whole (children and formatting included), a node that
/// `KdlNode::parse` read from `text`.
pub open spec fn parsed_from(d: DocNode, text: Seq<char>) -> bool {
    exists|n: kdl::KdlNode| d == #[trigger] kdl_node_parts(n) && kdl_node_record(n) == kdl_node_entry(text)->0
}

/// `after` is the document `before` once the alias `alias` for `server` was
/// added, and `res` what adding it answered.  In the first `aliases` node
/// (which must have children) the entries named `alias` leave and the entry
/// read from [`alias_entry_text`] comes last; without one, a new aliases
/// node read from [`aliases_node_text`] goes where [`aliases_node_index`]
/// says.  Text that does not read as a node is a KDL error.
pub open spec fn alias_added(before: Seq<DocNode>, alias: Seq<char>, server: Seq<char>, res: Result<bool, Error>, after: Seq<DocNode>) -> bool {
    match first_index_named(before, "aliases"@) {
        Some(a) => match before[a].children {
            None => res == Err::<bool, Error>(Error::ParseConfigError(ParseConfigError::ExpectedChildren(NodeClass::Aliases)))
                && after == before,
            Some(ch) => {
                let kept = without_named(ch, alias);
                match kdl_node_entry(alias_entry_text(alias, server)) {
                    None => res matches Err(Error::KdlError(_)) && after == before.update(a, with_children(before[a], Some(kept))),
                    Some(e) => {
                        &&& res is Ok
                        &&& after.len() == before.len()
                        &&& after[a].children matches Some(nc) && nc.len() == kept.len() + 1
                        &&& after == before.update(a, with_children(before[a], Some(kept.push(after[a].children->0.last()))))
                        &&& after[a].children->0.last().name == e.name@
                        &&& after[a].children->0.last().first_argument == e.first_argument
                        &&& parsed_from(after[a].children->0.last(), alias_entry_text(alias, server))
                    },
                }
            },
        },
        None => {
            let idx = aliases_node_index(before);
            let (lead, trail) = aliases_node_newlines(before);
            match kdl_node_entry(aliases_node_text(alias, server, lead, trail)) {
                None => res matches Err(Error::KdlError(_)) && after == before,
                Some(e) => {
                    &&& res is Ok
                    &&& after.len() == before.len() + 1
                    &&& after == before.insert(idx, after[idx])
                    &&& after[idx].name == e.name@
                    &&& after[idx].first_argument == e.first_argument
                    &&& parsed_from(after[idx], aliases_node_text(alias, server, lead, trail))
                },
            }
        },
    }
}

/// The first node named `name` is one of the nodes, and has that name.
proof fn lemma_first_index_named_in(nodes: Seq<DocNode>, name: Seq<char>)
    ensures
        first_index_named(nodes, name) matches Some(i) ==> 0 <= i < nodes.len() && nodes[i].name == name,
    decreases nodes.len(),
{
    if nodes.len() > 0 && nodes[0].name != name {
        lemma_first_index_named_in(nodes.drop_first(), name);
    }
}

/// The first node named `name`, seen one node at a time.
proof fn lemma_first_index_named(nodes: Seq<DocNode>, name: Seq<char>, i: int)
    requires
        0 <= i < nodes.len(),
        forall|j: int| 0 <= j < i ==> (#[trigger] nodes[j]).name != name,
    ensures
        nodes[i].name == name ==> first_index_named(nodes, name) == Some(i),
    decreases i,
{
    if i > 0 {
        assert forall|j: int| 0 <= j < i - 1 implies (#[trigger] nodes.drop_first()[j]).name != name by {
            assert(nodes.drop_first()[j] == nodes[j + 1]);
        }
        assert(nodes.drop_first()[i - 1] == nodes[i]);
        lemma_first_index_named(nodes.drop_first(), name, i - 1);
        assert(nodes[0].name != name);
    }
}

/// No node named `name` means no first one.
proof fn lemma_first_index_named_none(nodes: Seq<DocNode>, name: Seq<char>)
    requires
        forall|j: int| 0 <= j < nodes.len() ==> (#[trigger] nodes[j]).name != name,
    ensures
        first_index_named(nodes, name) is None,
    decreases nodes.len(),
{
    if nodes.len() > 0 {
        assert(nodes[0].name != name);
        assert forall|j: int| 0 <= j < nodes.len() - 1 implies (#[trigger] nodes.drop_first()[j]).name != name by {
            assert(nodes.drop_first()[j] == nodes[j + 1]);
        }
        lemma_first_index_named_none(nodes.drop_first(), name);
    }
}

/// No node named `name` is left among the nodes of `s` without those named
/// `name`.
pub proof fn without_named_excludes(s: Seq<DocNode>, name: Seq<char>)
    ensures
        forall|i: int| 0 <= i < without_named(s, name).len() ==> (#[trigger] without_named(s, name)[i]).name != name,
    decreases s.len(),
{
    if s.len() > 0 {
        without_named_excludes(s.drop_last(), name);
        let r = without_named(s.drop_last(), name);
        if s.last().name != name {
            assert forall|i: int| 0 <= i < r.push(s.last()).len() implies (#[trigger] r.push(s.last())[i]).name != name by {
                if i < r.len() {
                    assert(r.push(s.last())[i] == r[i]);
                }
            }
        }
    }
}

/// The aliases that entries make, as nodes of the document: each entry's
/// name mapped to its first argument, a later entry taking the place of an
/// earlier one with its name.
pub open spec fn doc_alias_map(entries: Seq<DocNode>) -> Map<Seq<char>, Option<ConfigValue>>
    decreases entries.len(),
{
    if entries.len() == 0 {
        Map::empty()
    } else {
        doc_alias_map(entries.drop_last()).insert(entries.last().name, entries.last().first_argument)
    }
}

/// Leaving out the entries named `name` leaves out the alias `name` and
/// keeps every other.
pub proof fn without_named_alias_map(s: Seq<DocNode>, name: Seq<char>)
    ensures
        doc_alias_map(without_named(s, name)) == doc_alias_map(s).remove(name),
    decreases s.len(),
{
    if s.len() == 0 {
        assert(doc_alias_map(s).remove(name) =~= Map::<Seq<char>, Option<ConfigValue>>::empty());
    } else {
        let init = s.drop_last();
        let x = s.last();
        without_named_alias_map(init, name);
        let w = without_named(init, name);
        if x.name == name {
            assert(doc_alias_map(s).remove(name) =~= doc_alias_map(init).remove(name));
        } else {
            assert(w.push(x).drop_last() =~= w);
            assert(doc_alias_map(w.push(x)) == doc_alias_map(w).insert(x.name, x.first_argument));
            assert(doc_alias_map(s).remove(name) =~= doc_alias_map(init).remove(name).insert(x.name, x.first_argument));
        }
    }
}

/// Adding an alias to an existing aliases node changes the aliases it makes
/// by dropping the alias and mapping the added entry's name to its
/// argument, both as `KdlNode::parse` reads the entry written for `alias`
/// and `server`; every other alias stays.
pub proof fn added_alias_changes_map(before: Seq<DocNode>, alias: Seq<char>, server: Seq<char>, res: Result<bool, Error>, after: Seq<DocNode>, a: int)
    requires
        alias_added(before, alias, server, res, after),
        res is Ok,
        first_index_named(before, "aliases"@) == Some(a),
    ensures
        after[a].children is Some,
        ({
            let e = kdl_node_entry(alias_entry_text(alias, server))->0;
            doc_alias_map(after[a].children->0)
                == doc_alias_map(before[a].children->0).remove(alias).insert(e.name@, e.first_argument)
        }),
{
    lemma_first_index_named_in(before, "aliases"@);
    let ch = before[a].children->0;
    let kept = without_named(ch, alias);
    without_named_alias_map(ch, alias);
    assert(after[a] == with_children(before[a], Some(kept.push(after[a].children->0.last()))));
    let nc = after[a].children->0;
    assert(nc.drop_last() =~= kept);
}

/// Once an alias was added to an existing aliases node, the entry added is
/// the only one left that can carry the alias: every other entry has
/// another name.
pub proof fn added_alias_replaces_entries(before: Seq<DocNode>, alias: Seq<char>, server: Seq<char>, res: Result<bool, Error>, after: Seq<DocNode>, a: int)
    requires
        alias_added(before, alias, server, res, after),
        res is Ok,
        first_index_named(before, "aliases"@) == Some(a),
    ensures
        after[a].children matches Some(nc) && forall|i: int| 0 <= i < nc.len() - 1 ==> (#[trigger] nc[i]).name != alias,
{
    lemma_first_index_named_in(before, "aliases"@);
    let ch = before[a].children->0;
    let kept = without_named(ch, alias);
    assert(after[a] == with_children(before[a], Some(kept.push(after[a].children->0.last()))));
    without_named_excludes(ch, alias);
    let nc = after[a].children->0;
    assert(nc == kept.push(nc.last()));
    assert forall|i: int| 0 <= i < nc.len() - 1 implies (#[trigger] nc[i]).name != alias by {
        assert(nc[i] == kept[i]);
    }
}

/// The first positions of the nodes named `aliases` and `rcon`.
fn find_alias_targets(document: &kdl::KdlDocument) -> (res: (Option<usize>, Option<usize>))
    ensures
        res.0 matches Some(a) ==> a < kdl_document_nodes(*document).len()
            && first_index_named(kdl_document_nodes(*document), "aliases"@) == Some(a as int),
        res.1 matches Some(r) ==> r < kdl_document_nodes(*document).len(),
        res.0 is None ==> first_index_named(kdl_document_nodes(*document), "aliases"@) is None,
        res.1 matches Some(r) ==> first_index_named(kdl_document_nodes(*document), "rcon"@) == Some(r as int),
        res.1 is None ==> first_index_named(kdl_document_nodes(*document), "rcon"@) is None,
{
    let ghost nodes = kdl_document_nodes(*document);
    let n = node_count(document);
    let mut i: usize = 0;
    let mut aliases_at: Option<usize> = None;
    let mut rcon_at: Option<usize> = None;
    let aliases_name = owned("aliases");
    let rcon_name = owned("rcon");
    proof {
        reveal_strlit("aliases");
        reveal_strlit("rcon");
    }
    while i < n
        invariant
            i <= n == nodes.len(),
            nodes == kdl_document_nodes(*document),
            aliases_name@ == "aliases"@,
            rcon_name@ == "rcon"@,
            aliases_at is None ==> forall|j: int| 0 <= j < i ==> (#[trigger] nodes[j]).name != "aliases"@,
            aliases_at matches Some(a) ==> a < i && first_index_named(nodes, "aliases"@) == Some(a as int),
            rcon_at is None ==> forall|j: int| 0 <= j < i ==> (#[trigger] nodes[j]).name != "rcon"@,
            rcon_at matches Some(r) ==> r < i && first_index_named(nodes, "rcon"@) == Some(r as int),
        decreases n - i,
    {
        proof {
            if aliases_at is None {
                lemma_first_index_named(nodes, "aliases"@, i as int);
            }
            if rcon_at is None {
                lemma_first_index_named(nodes, "rcon"@, i as int);
            }
        }
        let name = node_name(document, i);
        if aliases_at.is_none() && name == aliases_name {
            aliases_at = Some(i);
        }
        if rcon_at.is_none() && name == rcon_name {
            rcon_at = Some(i);
        }
        i = i + 1;
    }
    proof {
        if aliases_at is None {
            lemma_first_index_named_none(nodes, "aliases"@);
        }
        if rcon_at is None {
            lemma_first_index_named_none(nodes, "rcon"@);
        }
    }
    (aliases_at, rcon_at)
}

/// Drops the children named `alias` of the top-level node at `a`, keeping
/// the order of the others.
fn drop_children_named(document: &mut kdl::KdlDocument, a: usize, alias: &str)
    requires
        a < kdl_document_nodes(*old(document)).len(),
        kdl_document_nodes(*old(document))[a as int].children is Some,
    ensures
        kdl_document_nodes(*final(document)) == kdl_document_nodes(*old(document)).update(a as int, with_children(
            kdl_document_nodes(*old(document))[a as int],
            Some(without_named(kdl_document_nodes(*old(document))[a as int].children->0, alias@)),
        )),
{
    let ghost before = kdl_document_nodes(*document);
    let ghost orig = before[a as int].children->0;
    let target = owned(alias);
    let c = child_count(document, a);
    let mut j: usize = 0;
    let mut k: usize = 0;
    assert(orig.take(0) =~= Seq::<DocNode>::empty());
    assert(orig.skip(0) =~= orig);
    assert(before.update(a as int, with_children(before[a as int], Some(orig))) =~= before);
    while k < c
        invariant
            j <= k <= c,
            c == orig.len(),
            a < before.len(),
            target@ == alias@,
            before[a as int].children == Some(orig),
            j == without_named(orig.take(k as int), alias@).len(),
            kdl_document_nodes(*document) == before.update(a as int, with_children(before[a as int],
                Some(without_named(orig.take(k as int), alias@) + orig.skip(k as int)))),
        decreases c - k,
    {
        let ghost w = without_named(orig.take(k as int), alias@);
        let ghost cur = w + orig.skip(k as int);
        assert(cur[j as int] == orig[k as int]);
        assert(orig.take(k + 1).drop_last() =~= orig.take(k as int));
        assert(orig.take(k + 1).last() == orig[k as int]);
        let name = child_name(document, a, j);
        if name == target {
            remove_child(document, a, j);
            assert(cur.remove(j as int) =~= w + orig.skip(k + 1));
        } else {
            assert(cur =~= w.push(orig[k as int]) + orig.skip(k + 1));
            j = j + 1;
        }
        k = k + 1;
    }
    assert(orig.take(k as int) =~= orig);
    assert(orig.skip(k as int) =~= Seq::<DocNode>::empty());
    assert(without_named(orig, alias@) + Seq::<DocNode>::empty() =~= without_named(orig, alias@));
}

/// Adds the alias `alias` for `server` to the configuration document: in
/// the first `aliases` node (which must have children), the entries named
/// `alias` give way to a new one at the end; without an `aliases` node, a
/// new one holding the entry goes right after the first `rcon` node (with
/// newlines around it as [`newlines_needed`] says), or at the end.  Answers
/// whether to remark that the alias is longer than the server's name.
pub fn add_alias(document: &mut kdl::KdlDocument, alias: &str, server: &str) -> (res: Result<bool, Error>)
    ensures
        res matches Ok(remark) ==> remark == (alias.len() > server.len() && alias@ != "default"@),
        alias_added(kdl_document_nodes(*old(document)), alias@, server@, res, kdl_document_nodes(*final(document))),
{
    let remark = alias.len() > server.len() && owned(alias) != owned("default");
    let kdl_alias = transform_to_kdl_string(alias);
    let kdl_server = transform_to_kdl_string(server);
    let ghost before = kdl_document_nodes(*document);
    let (aliases_at, rcon_at) = find_alias_targets(document);
    if let Some(a) = aliases_at {
        if !node_has_children(document, a) {
            return Err(Error::ParseConfigError(ParseConfigError::ExpectedChildren(NodeClass::Aliases)));
        }
        drop_children_named(document, a, alias);
        let mut entry: Vec<char> = Vec::new();
        push_str(&mut entry, "    ");
        push_str(&mut entry, kdl_alias.as_str());
        push_str(&mut entry, " ");
        push_str(&mut entry, kdl_server.as_str());
        push_str(&mut entry, "\n");
        assert(entry@ =~= alias_entry_text(alias@, server@));
        let text = string_of(&entry);
        let node = match parse_node(text.as_str()) {
            Ok(n) => n,
            Err(m) => return Err(Error::KdlError(m)),
        };
        let ghost mid = kdl_document_nodes(*document);
        let ghost parts = kdl_node_parts(node);
        push_child(document, a, node);
        proof {
            let kept = without_named(before[a as int].children->0, alias@);
            let after = kdl_document_nodes(*document);
            assert(mid[a as int].children == Some(kept));
            assert(after[a as int].children == Some(kept.push(parts)));
            assert(after =~= before.update(a as int, with_children(before[a as int], Some(kept.push(parts)))));
            assert(kdl_node_record(node) == kdl_node_entry(alias_entry_text(alias@, server@))->0);
            assert(parsed_from(parts, alias_entry_text(alias@, server@)));
        }
        return Ok(remark);
    }
    let n = node_count(document);
    let (idx, lead, trail): (usize, usize, usize) = match rcon_at {
        Some(r) => {
            let (l, t): (usize, usize) = match node_format(document, r) {
                Some((leading, trailing)) => {
                    let l = count_newlines(&leading);
                    let t = count_newlines(&trailing);
                    (if l < 2 { 2 - l } else { 0 }, if t == 0 { 1 } else { 0 })
                },
                None => (0, 0),
            };
            (r + 1, l, t)
        },
        None => (n, 0, 0),
    };
    assert((lead as nat, trail as nat) == aliases_node_newlines(before));
    let mut text: Vec<char> = Vec::new();
    push_newlines(&mut text, lead);
    push_str(&mut text, "aliases {\n    ");
    push_str(&mut text, kdl_alias.as_str());
    push_str(&mut text, " ");
    push_str(&mut text, kdl_server.as_str());
    push_str(&mut text, "\n}");
    push_newlines(&mut text, trail);
    assert(text@ =~= aliases_node_text(alias@, server@, lead as nat, trail as nat));
    let text = string_of(&text);
    let node = match parse_node(text.as_str()) {
        Ok(n) => n,
        Err(m) => return Err(Error::KdlError(m)),
    };
    let ghost parts = kdl_node_parts(node);
    insert_node(document, idx, node);
    proof {
        let after = kdl_document_nodes(*document);
        assert(after[idx as int] == parts);
        assert(after =~= before.insert(idx as int, after[idx as int]));
        assert(parsed_from(parts, aliases_node_text(alias@, server@, lead as nat, trail as nat)));
    }
    Ok(remark)
}

/// How a block's name prints.
pub open spec fn node_class_text(c: NodeClass) -> Seq<char> {
    match c {
        NodeClass::Aliases => "aliases"@,
        NodeClass::Rcon => "rcon"@,
    }
}

/// How a value type prints.
pub open spec fn value_type_text(t: KdlValueType) -> Seq<char> {
    match t {
        KdlValueType::String => "string"@,
        KdlValueType::Integer => "integer"@,
        KdlValueType::Float => "float"@,
        KdlValueType::Bool => "bool"@,
    }
}

impl NodeClass {
    /// How the block's name prints.
    pub fn render(&self) -> (res: String)
        ensures
            res@ == node_class_text(*self),
    {
        match self {
            NodeClass::Aliases => owned("aliases"),
            NodeClass::Rcon => owned("rcon"),
        }
    }
}

impl KdlValueType {
    /// How the type prints.
    pub fn render(&self) -> (res: String)
        ensures
            res@ == value_type_text(*self),
    {
        match self {
            KdlValueType::String => owned("string"),
            KdlValueType::Integer => owned("integer"),
            KdlValueType::Float => owned("float"),
            KdlValueType::Bool => owned("bool"),
        }
    }
}

impl NodeContext {
    /// How the context prints: the node's name, then ` of ` and its block
    /// when it has one.
    pub fn render(&self) -> (res: String)
        ensures
            self.parent_class matches Some(c) ==> res@ == self.node_name@ + " of "@ + node_class_text(c),
            self.parent_class is None ==> res@ == self.node_name@,
    {
        match &self.parent_class {
            Some(c) => {
                let mut out = chars_of(self.node_name.as_str());
                push_str(&mut out, " of ");
                push_str(&mut out, c.render().as_str());
                string_of(&out)
            },
            None => self.node_name.clone(),
        }
    }
}

} // verus!
