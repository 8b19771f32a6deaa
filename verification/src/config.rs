use vstd::prelude::*;
use vstd::slice::{slice_subrange, slice_index_get};
use crate::proc::{StopPolicy, StopSignal};

verus! {

broadcast use vstd::std_specs::vec::axiom_vec_index_decreases, vstd::seq::axiom_seq_index_decreases, vstd::std_specs::vec::axiom_vec_decreases_to_view;

/// Address a control server listens on, or that a control client connects to.
#[derive(Debug, PartialEq, Eq)]
pub enum ServerConfig {
    Tcp(String),
}

impl ServerConfig {
    /// Parses a server address from its textual form.
    pub fn from_str(server_addr: &str) -> (r: ServerConfig)
        ensures
            r matches ServerConfig::Tcp(a) && a@ == server_addr@,
    {
        ServerConfig::Tcp(server_addr.to_owned())
    }
}

/// One scalar or structured value of the configuration tree, as the core
/// reads it: numbers are carried in their textual form, mappings keep
/// insertion order.
pub enum ConfigValue {
    Null,
    Bool(bool),
    Num(String),
    Str(String),
    List(Vec<ConfigValue>),
    Obj(Vec<ConfigEntry>),
}

/// One key/value pair of a configuration mapping.
pub struct ConfigEntry {
    pub key: ConfigValue,
    pub value: ConfigValue,
}

pub open spec fn key_is(k: ConfigValue, lit: Seq<char>) -> bool {
    k matches ConfigValue::Str(s) && s@ == lit
}

/// Index of the first entry under the given key, if any.
pub open spec fn map_get_idx(es: Seq<ConfigEntry>, key: Seq<char>) -> Option<int>
    decreases es.len(),
{
    if es.len() == 0 {
        None
    } else if key_is(es[0].key, key) {
        Some(0)
    } else {
        match map_get_idx(es.drop_first(), key) {
            None => None,
            Some(i) => Some(i + 1),
        }
    }
}

pub open spec fn sel_chars() -> Seq<char> {
    seq!['$', 's', 'e', 'l', 'e', 'c', 't']
}

pub open spec fn else_chars() -> Seq<char> {
    seq!['$', 'e', 'l', 's', 'e']
}

pub open spec fn os_chars() -> Seq<char> {
    seq!['o', 's']
}

/// A mapping whose first key is the conditional marker is not a value of
/// its own: it selects one of its entries by the running operating system.
pub open spec fn is_select(v: ConfigValue) -> bool {
    v matches ConfigValue::Obj(es) && es@.len() > 0 && key_is(es@[0].key, sel_chars())
}

/// Reasons a configuration is rejected.
#[derive(Clone, Copy, Debug, PartialEq, Eq, Structural)]
pub enum ErrorKind {
    ExpectedString,
    ExpectedArray,
    ExpectedObject,
    ExpectedStringOrNull,
    KeyNotScalar,
    ExpectedOsSelect,
    NoMatchingCondition,
    MissingCommand,
    ConflictingCommand,
    InvalidProcValue,
}

/// Resolution of the conditional marker: a mapping whose first key is
/// `$select` stands for the entry named by the running operating system,
/// or for its `$else` entry; anything else stands for itself. The chosen
/// entry is resolved again.
pub open spec fn spec_resolve(v: ConfigValue, os: Seq<char>) -> Result<ConfigValue, ErrorKind>
    decreases v,
    via spec_resolve_decreases
{
    if is_select(v) {
        let es = v->Obj_0;
        let tag_i = map_get_idx(es@, sel_chars())->Some_0;
        if !key_is(es@[tag_i].value, os_chars()) {
            Err(ErrorKind::ExpectedOsSelect)
        } else {
            match map_get_idx(es@, os) {
                Some(i) => spec_resolve(es@[i].value, os),
                None => match map_get_idx(es@, else_chars()) {
                    Some(i) => spec_resolve(es@[i].value, os),
                    None => Err(ErrorKind::NoMatchingCondition),
                },
            }
        }
    } else {
        Ok(v)
    }
}

/// The first entry a key finds is inside the mapping and holds that key.
pub proof fn lemma_map_get_idx_bounds(es: Seq<ConfigEntry>, key: Seq<char>)
    ensures
        map_get_idx(es, key) matches Some(i) ==> 0 <= i < es.len() && key_is(es[i].key, key),
    decreases es.len(),
{
    if es.len() > 0 && !key_is(es[0].key, key) {
        lemma_map_get_idx_bounds(es.drop_first(), key);
    }
}

#[via_fn]
proof fn spec_resolve_decreases(v: ConfigValue, os: Seq<char>) {
    if is_select(v) {
        let es = v->Obj_0;
        lemma_map_get_idx_bounds(es@, os);
        lemma_map_get_idx_bounds(es@, else_chars());
        assert(decreases_to!(v => es));
        match map_get_idx(es@, os) {
            Some(i) => {
                assert(decreases_to!(es@ => es@[i]));
                assert(decreases_to!(v => es@[i].value));
            },
            None => {
                match map_get_idx(es@, else_chars()) {
                    Some(i) => {
                        assert(decreases_to!(es@ => es@[i]));
                        assert(decreases_to!(v => es@[i].value));
                    },
                    None => {},
                }
            },
        }
    }
}


// ------------------------------------------------------------------
// Trace: the path from the configuration root to a value, kept for
// error reporting.
// ------------------------------------------------------------------

/// Path of keys from the configuration root down to one value.
pub struct Trace(pub Vec<String>);

/// The rendered trace: the root marker, then a dot before each segment.
pub open spec fn trace_str(segs: Seq<Seq<char>>) -> Seq<char>
    decreases segs.len(),
{
    if segs.len() == 0 {
        seq!['<', 'c', 'o', 'n', 'f', 'i', 'g', '>']
    } else {
        trace_str(segs.drop_last()) + seq!['.'] + segs.last()
    }
}

impl Trace {
    pub open spec fn segs(self) -> Seq<Seq<char>> {
        self.0@.map_values(|s: String| s@)
    }

    pub fn empty() -> (r: Trace)
        ensures
            r.segs() == Seq::<Seq<char>>::empty(),
    {
        let r = Trace(Vec::new());
        assert(r.segs() =~= Seq::<Seq<char>>::empty());
        r
    }

    /// A new trace one segment deeper.
    pub fn add(&self, seg: &str) -> (r: Trace)
        ensures
            r.segs() == self.segs().push(seg@),
    {
        let mut v: Vec<String> = Vec::new();
        let mut i: usize = 0;
        while i < self.0.len()
            invariant
                i <= self.0.len(),
                v@.len() == i,
                forall|j: int| 0 <= j < i ==> v@[j] == self.0@[j],
            decreases self.0.len() - i,
        {
            v.push(self.0[i].clone());
            i += 1;
        }
        v.push(seg.to_owned());
        let r = Trace(v);
        assert(r.segs() =~= self.segs().push(seg@));
        r
    }

    /// Renders the trace for an error message.
    pub fn to_string(&self) -> (r: String)
        ensures
            r@ == trace_str(self.segs()),
    {
        let mut r = String::from_str("<config>");
        proof {
            reveal_strlit("<config>");
            assert(r@ =~= trace_str(self.segs().take(0)));
        }
        let mut i: usize = 0;
        while i < self.0.len()
            invariant
                i <= self.0.len(),
                r@ == trace_str(self.segs().take(i as int)),
            decreases self.0.len() - i,
        {
            r.append(".");
            r.append(self.0[i].as_str());
            proof {
                reveal_strlit(".");
                let pre = self.segs().take(i as int);
                let now = self.segs().take(i + 1);
                assert(now.drop_last() =~= pre);
                assert(now.last() == self.0@[i as int]@);
                assert(r@ =~= trace_str(now));
            }
            i += 1;
        }
        proof {
            assert(self.segs().take(self.0@.len() as int) =~= self.segs());
        }
        r
    }
}

// ------------------------------------------------------------------
// Scalars and key lookup.
// ------------------------------------------------------------------

/// The text a scalar key or value renders to; structured values have none.
pub open spec fn scalar_chars(v: ConfigValue) -> Option<Seq<char>> {
    match v {
        ConfigValue::Null => Some(seq!['n', 'u', 'l', 'l']),
        ConfigValue::Bool(b) => if b {
            Some(seq!['t', 'r', 'u', 'e'])
        } else {
            Some(seq!['f', 'a', 'l', 's', 'e'])
        },
        ConfigValue::Num(s) => Some(s@),
        ConfigValue::Str(s) => Some(s@),
        ConfigValue::List(_) => None,
        ConfigValue::Obj(_) => None,
    }
}

/// Error returned when a configuration is rejected: the reason, and the
/// path it was found at (diagnostic text, not part of any contract).
#[derive(Debug)]
pub struct ConfigError {
    pub kind: ErrorKind,
    pub at: String,
}

/// Renders a scalar for use as a name or key; arrays and mappings are
/// rejected.
pub fn value_to_string(v: &ConfigValue, trace: &Trace) -> (r: Result<String, ConfigError>)
    ensures
        r matches Ok(s) ==> scalar_chars(*v) == Some(s@),
        r matches Err(e) ==> scalar_chars(*v) is None && e.kind == ErrorKind::KeyNotScalar,
{
    match v {
        ConfigValue::Null => {
            let s = "null".to_owned();
            proof {
                reveal_strlit("null");
                assert(s@ =~= seq!['n', 'u', 'l', 'l']);
            }
            Ok(s)
        },
        ConfigValue::Bool(b) => {
            if *b {
                let s = "true".to_owned();
                proof {
                    reveal_strlit("true");
                    assert(s@ =~= seq!['t', 'r', 'u', 'e']);
                }
                Ok(s)
            } else {
                let s = "false".to_owned();
                proof {
                    reveal_strlit("false");
                    assert(s@ =~= seq!['f', 'a', 'l', 's', 'e']);
                }
                Ok(s)
            }
        },
        ConfigValue::Num(s) => Ok(s.clone()),
        ConfigValue::Str(s) => Ok(s.clone()),
        _ => Err(ConfigError { kind: ErrorKind::KeyNotScalar, at: trace.to_string() }),
    }
}

fn key_matches(k: &ConfigValue, key: &String) -> (r: bool)
    ensures
        r == key_is(*k, key@),
{
    match k {
        ConfigValue::Str(s) => *s == *key,
        _ => false,
    }
}

proof fn lemma_map_get_idx_from(es: Seq<ConfigEntry>, key: Seq<char>, i: int)
    requires
        0 <= i <= es.len(),
        forall|j: int| 0 <= j < i ==> !key_is(#[trigger] es[j].key, key),
    ensures
        i < es.len() && key_is(es[i].key, key) ==> map_get_idx(es, key) == Some(i),
        i == es.len() ==> map_get_idx(es, key) is None,
    decreases i,
{
    if i > 0 {
        let tail = es.drop_first();
        assert(forall|j: int| 0 <= j < i - 1 ==> !key_is(#[trigger] tail[j].key, key));
        lemma_map_get_idx_from(tail, key, i - 1);
    }
}

/// First entry of a mapping held under the given key.
fn find_key(es: &Vec<ConfigEntry>, key: &String) -> (r: Option<usize>)
    ensures
        r matches Some(u) ==> map_get_idx(es@, key@) == Some(u as int) && u < es@.len(),
        r is None ==> map_get_idx(es@, key@) is None,
{
    let mut i: usize = 0;
    while i < es.len()
        invariant
            i <= es.len(),
            forall|j: int| 0 <= j < i ==> !key_is(#[trigger] es@[j].key, key@),
        decreases es.len() - i,
    {
        if key_matches(&es[i].key, key) {
            proof {
                lemma_map_get_idx_from(es@, key@, i as int);
            }
            return Some(i);
        }
        i += 1;
    }
    proof {
        lemma_map_get_idx_from(es@, key@, es@.len() as int);
    }
    None
}

/// Resolves conditional markers until a plain value remains, keeping the
/// trace of choices taken.
pub fn resolve<'a>(v: &'a ConfigValue, trace: Trace, os: &String) -> (r: Result<
    (&'a ConfigValue, Trace),
    ConfigError,
>)
    ensures
        r matches Ok(p) ==> spec_resolve(*v, os@) == Ok::<ConfigValue, ErrorKind>(*p.0),
        r matches Err(e) ==> spec_resolve(*v, os@) == Err::<ConfigValue, ErrorKind>(e.kind),
{
    let mut cur: &'a ConfigValue = v;
    let mut tr = trace;
    loop
        invariant
            spec_resolve(*cur, os@) == spec_resolve(*v, os@),
        decreases *cur,
    {
        let ghost prev = *cur;
        let is_sel: bool = match cur {
            ConfigValue::Obj(es) => {
                if es.len() > 0 {
                    let sel = "$select".to_owned();
                    proof {
                        reveal_strlit("$select");
                        assert(sel@ =~= sel_chars());
                    }
                    key_matches(&es[0].key, &sel)
                } else {
                    false
                }
            },
            _ => false,
        };
        assert(is_sel == is_select(*cur));
        if !is_sel {
            return Ok((cur, tr));
        }
        match cur {
            ConfigValue::Obj(es) => {
                proof {
                    assert(map_get_idx(es@, sel_chars()) == Some(0int));
                }
                let os_lit = "os".to_owned();
                proof {
                    reveal_strlit("os");
                    assert(os_lit@ =~= os_chars());
                }
                let tag_ok = key_matches(&es[0].value, &os_lit);
                if !tag_ok {
                    return Err(ConfigError {
                        kind: ErrorKind::ExpectedOsSelect,
                        at: tr.add("$select").to_string(),
                    });
                }
                match find_key(es, os) {
                    Some(i) => {
                        proof {
                            assert(decreases_to!(prev => (*es)));
                            assert(decreases_to!((*es) => (*es)@));
                            assert(decreases_to!((*es)@ => (*es)@[i as int]));
                        }
                        cur = &es[i].value;
                        tr = tr.add(os.as_str());
                    },
                    None => {
                        let else_lit = "$else".to_owned();
                        proof {
                            reveal_strlit("$else");
                            assert(else_lit@ =~= else_chars());
                        }
                        match find_key(es, &else_lit) {
                            Some(i) => {
                                proof {
                                    assert(decreases_to!(prev => (*es)));
                                    assert(decreases_to!((*es) => (*es)@));
                                    assert(decreases_to!((*es)@ => (*es)@[i as int]));
                                }
                                cur = &es[i].value;
                                tr = tr.add("$else");
                            },
                            None => {
                                return Err(ConfigError {
                                    kind: ErrorKind::NoMatchingCondition,
                                    at: tr.to_string(),
                                });
                            },
                        }
                    },
                }
            },
            _ => {
                return Ok((cur, tr));
            },
        }
    }
}


// ------------------------------------------------------------------
// Process records.
// ------------------------------------------------------------------

/// One environment override: set a variable, or unset an inherited one.
#[derive(Debug, PartialEq, Eq)]
pub struct EnvEntry {
    pub name: String,
    pub value: Option<String>,
}

/// The command of a process: an argument vector run directly, or one line
/// handed to the shell.
#[derive(Debug, PartialEq, Eq)]
pub enum CmdConfig {
    Cmd { cmd: Vec<String> },
    Shell { shell: String },
}

/// Static configuration of one managed process.
#[derive(Debug, PartialEq, Eq)]
pub struct ProcConfig {
    pub name: String,
    pub cmd: CmdConfig,
    pub cwd: Option<String>,
    pub env: Option<Vec<EnvEntry>>,
    pub autostart: bool,
    pub stop: StopPolicy,
}

/// The loaded configuration: the process records in file order, and the
/// optional control-server address.
#[derive(Debug, PartialEq, Eq)]
pub struct Config {
    pub procs: Vec<ProcConfig>,
    pub server: Option<ServerConfig>,
}

impl Default for Config {
    /// An empty configuration: no processes, no control server.
    fn default() -> (r: Config)
        ensures
            r.procs@.len() == 0,
            r.server is None,
    {
        Config { procs: Vec::new(), server: None }
    }
}

pub struct EnvView {
    pub name: Seq<char>,
    pub value: Option<Seq<char>>,
}

pub enum CmdView {
    Argv(Seq<Seq<char>>),
    Shell(Seq<char>),
}

pub struct ProcView {
    pub name: Seq<char>,
    pub cmd: CmdView,
    pub cwd: Option<Seq<char>>,
    pub env: Option<Seq<EnvView>>,
    pub autostart: bool,
    pub stop: StopPolicy,
}

pub struct ConfigView {
    pub procs: Seq<ProcView>,
    pub server: Option<Seq<char>>,
}

impl View for EnvEntry {
    type V = EnvView;

    open spec fn view(&self) -> EnvView {
        EnvView {
            name: self.name@,
            value: match self.value {
                Some(v) => Some(v@),
                None => None,
            },
        }
    }
}

impl View for CmdConfig {
    type V = CmdView;

    open spec fn view(&self) -> CmdView {
        match self {
            CmdConfig::Cmd { cmd } => CmdView::Argv(cmd@.map_values(|s: String| s@)),
            CmdConfig::Shell { shell } => CmdView::Shell(shell@),
        }
    }
}

impl View for ProcConfig {
    type V = ProcView;

    open spec fn view(&self) -> ProcView {
        ProcView {
            name: self.name@,
            cmd: self.cmd@,
            cwd: match self.cwd {
                Some(c) => Some(c@),
                None => None,
            },
            env: match self.env {
                Some(e) => Some(e@.map_values(|x: EnvEntry| x@)),
                None => None,
            },
            autostart: self.autostart,
            stop: self.stop,
        }
    }
}

impl View for Config {
    type V = ConfigView;

    open spec fn view(&self) -> ConfigView {
        ConfigView {
            procs: self.procs@.map_values(|p: ProcConfig| p@),
            server: match self.server {
                Some(ServerConfig::Tcp(a)) => Some(a@),
                None => None,
            },
        }
    }
}

pub open spec fn default_stop() -> StopPolicy {
    StopPolicy { signal: StopSignal::Interrupt, grace_ms: 5000 }
}

// ------------------------------------------------------------------
// The meaning of a configuration tree.
// ------------------------------------------------------------------

pub open spec fn pair_views(s: Seq<(String, &ConfigValue)>) -> Seq<(Seq<char>, ConfigValue)> {
    s.map_values(|p: (String, &ConfigValue)| (p.0@, *p.1))
}

/// Keys of a mapping rendered as text, values resolved, order kept; the
/// first offending entry rejects the whole mapping.
pub open spec fn spec_obj_entries(es: Seq<ConfigEntry>, os: Seq<char>) -> Result<
    Seq<(Seq<char>, ConfigValue)>,
    ErrorKind,
>
    decreases es.len(),
{
    if es.len() == 0 {
        Ok(Seq::empty())
    } else {
        match scalar_chars(es[0].key) {
            None => Err(ErrorKind::KeyNotScalar),
            Some(k) => match spec_resolve(es[0].value, os) {
                Err(e) => Err(e),
                Ok(v) => match spec_obj_entries(es.drop_first(), os) {
                    Err(e) => Err(e),
                    Ok(rest) => Ok(seq![(k, v)] + rest),
                },
            },
        }
    }
}

/// First value under the given key of an already-rendered mapping.
pub open spec fn assoc(entries: Seq<(Seq<char>, ConfigValue)>, key: Seq<char>) -> Option<
    ConfigValue,
>
    decreases entries.len(),
{
    if entries.len() == 0 {
        None
    } else if entries[0].0 == key {
        Some(entries[0].1)
    } else {
        assoc(entries.drop_first(), key)
    }
}

/// Items of a command list: each resolved, each required to be a string.
pub open spec fn spec_cmd_items(items: Seq<ConfigValue>, os: Seq<char>) -> Result<
    Seq<Seq<char>>,
    ErrorKind,
>
    decreases items.len(),
{
    if items.len() == 0 {
        Ok(Seq::empty())
    } else {
        match spec_resolve(items[0], os) {
            Err(e) => Err(e),
            Ok(v) => match v {
                ConfigValue::Str(sv) => match spec_cmd_items(items.drop_first(), os) {
                    Err(e) => Err(e),
                    Ok(rest) => Ok(seq![sv@] + rest),
                },
                _ => Err(ErrorKind::ExpectedString),
            },
        }
    }
}

/// Environment overrides: a string sets a variable, null unsets it,
/// anything else is rejected.
pub open spec fn spec_env(pairs: Seq<(Seq<char>, ConfigValue)>) -> Result<Seq<EnvView>, ErrorKind>
    decreases pairs.len(),
{
    if pairs.len() == 0 {
        Ok(Seq::empty())
    } else {
        let value = match pairs[0].1 {
            ConfigValue::Null => Ok(None),
            ConfigValue::Str(sv) => Ok(Some(sv@)),
            _ => Err(ErrorKind::ExpectedStringOrNull),
        };
        match value {
            Err(e) => Err(e),
            Ok(v) => match spec_env(pairs.drop_first()) {
                Err(e) => Err(e),
                Ok(rest) => Ok(seq![EnvView { name: pairs[0].0, value: v }] + rest),
            },
        }
    }
}

pub open spec fn shell_chars() -> Seq<char> {
    seq!['s', 'h', 'e', 'l', 'l']
}

pub open spec fn cmd_chars() -> Seq<char> {
    seq!['c', 'm', 'd']
}

pub open spec fn env_chars() -> Seq<char> {
    seq!['e', 'n', 'v']
}

pub open spec fn procs_chars() -> Seq<char> {
    seq!['p', 'r', 'o', 'c', 's']
}

pub open spec fn server_chars() -> Seq<char> {
    seq!['s', 'e', 'r', 'v', 'e', 'r']
}

/// A process record read from a mapping: exactly one of `shell` and `cmd`
/// must be present, and `env`, when present, must be a mapping of strings
/// or nulls.
pub open spec fn spec_proc_obj(
    name: Seq<char>,
    entries: Seq<(Seq<char>, ConfigValue)>,
    os: Seq<char>,
) -> Result<Option<ProcView>, ErrorKind> {
    let cmd = match (assoc(entries, shell_chars()), assoc(entries, cmd_chars())) {
        (None, Some(c)) => match c {
            ConfigValue::List(items) => match spec_cmd_items(items@, os) {
                Err(e) => Err(e),
                Ok(argv) => Ok(CmdView::Argv(argv)),
            },
            _ => Err(ErrorKind::ExpectedArray),
        },
        (Some(sv), None) => match sv {
            ConfigValue::Str(sh) => Ok(CmdView::Shell(sh@)),
            _ => Err(ErrorKind::ExpectedString),
        },
        (None, None) => Err(ErrorKind::MissingCommand),
        (Some(_), Some(_)) => Err(ErrorKind::ConflictingCommand),
    };
    match cmd {
        Err(e) => Err(e),
        Ok(cmdv) => {
            let env = match assoc(entries, env_chars()) {
                None => Ok(None),
                Some(ev) => match ev {
                    ConfigValue::Obj(env_es) => match spec_obj_entries(env_es@, os) {
                        Err(e) => Err(e),
                        Ok(ps) => match spec_env(ps) {
                            Err(e) => Err(e),
                            Ok(items) => Ok(Some(items)),
                        },
                    },
                    _ => Err(ErrorKind::ExpectedObject),
                },
            };
            match env {
                Err(e) => Err(e),
                Ok(envv) => Ok(
                    Some(
                        ProcView {
                            name,
                            cmd: cmdv,
                            cwd: None,
                            env: envv,
                            autostart: true,
                            stop: default_stop(),
                        },
                    ),
                ),
            }
        },
    }
}

/// The record one named, already-resolved configuration value stands for:
/// null is a disabled placeholder, a string is a shell line, a list is an
/// argument vector, a mapping gives the full form; numbers and booleans
/// are rejected.
pub open spec fn spec_proc(name: Seq<char>, v: ConfigValue, os: Seq<char>) -> Result<
    Option<ProcView>,
    ErrorKind,
> {
    match v {
        ConfigValue::Null => Ok(None),
        ConfigValue::Bool(_) => Err(ErrorKind::InvalidProcValue),
        ConfigValue::Num(_) => Err(ErrorKind::InvalidProcValue),
        ConfigValue::Str(sh) => Ok(
            Some(
                ProcView {
                    name,
                    cmd: CmdView::Shell(sh@),
                    cwd: None,
                    env: None,
                    autostart: true,
                    stop: default_stop(),
                },
            ),
        ),
        ConfigValue::List(items) => match spec_cmd_items(items@, os) {
            Err(e) => Err(e),
            Ok(argv) => Ok(
                Some(
                    ProcView {
                        name,
                        cmd: CmdView::Argv(argv),
                        cwd: None,
                        env: None,
                        autostart: true,
                        stop: default_stop(),
                    },
                ),
            ),
        },
        ConfigValue::Obj(es) => match spec_obj_entries(es@, os) {
            Err(e) => Err(e),
            Ok(entries) => spec_proc_obj(name, entries, os),
        },
    }
}

/// The records of the `procs` mapping, in file order, null entries left
/// out.
pub open spec fn spec_procs(pairs: Seq<(Seq<char>, ConfigValue)>, os: Seq<char>) -> Result<
    Seq<ProcView>,
    ErrorKind,
>
    decreases pairs.len(),
{
    if pairs.len() == 0 {
        Ok(Seq::empty())
    } else {
        match spec_proc(pairs[0].0, pairs[0].1, os) {
            Err(e) => Err(e),
            Ok(None) => spec_procs(pairs.drop_first(), os),
            Ok(Some(p)) => match spec_procs(pairs.drop_first(), os) {
                Err(e) => Err(e),
                Ok(rest) => Ok(seq![p] + rest),
            },
        }
    }
}

/// The configuration a whole tree stands for: a mapping with an optional
/// `procs` mapping and an optional `server` address string.
pub open spec fn spec_config(v: ConfigValue, os: Seq<char>) -> Result<ConfigView, ErrorKind> {
    match spec_resolve(v, os) {
        Err(e) => Err(e),
        Ok(rv) => match rv {
            ConfigValue::Obj(es) => match spec_obj_entries(es@, os) {
                Err(e) => Err(e),
                Ok(entries) => {
                    let procs = match assoc(entries, procs_chars()) {
                        None => Ok(Seq::<ProcView>::empty()),
                        Some(pv) => match pv {
                            ConfigValue::Obj(pes) => match spec_obj_entries(pes@, os) {
                                Err(e) => Err(e),
                                Ok(pentries) => spec_procs(pentries, os),
                            },
                            _ => Err(ErrorKind::ExpectedObject),
                        },
                    };
                    match procs {
                        Err(e) => Err(e),
                        Ok(ps) => match assoc(entries, server_chars()) {
                            None => Ok(ConfigView { procs: ps, server: None }),
                            Some(sv) => match sv {
                                ConfigValue::Str(a) => Ok(
                                    ConfigView { procs: ps, server: Some(a@) },
                                ),
                                _ => Err(ErrorKind::ExpectedString),
                            },
                        },
                    }
                },
            },
            _ => Err(ErrorKind::ExpectedObject),
        },
    }
}


// ------------------------------------------------------------------
// Executable loading.
// ------------------------------------------------------------------

/// Decimal rendering of an index for trace segments (diagnostic only).
fn idx_string(n: usize) -> String {
    let mut digits: Vec<u8> = Vec::new();
    let mut m = n;
    loop
        invariant
            true,
        decreases m,
    {
        let d: u8 = (m % 10) as u8;
        digits.push(48 + d);
        m = m / 10;
        if m == 0 {
            break;
        }
    }
    let mut ordered: Vec<u8> = Vec::new();
    let mut i = digits.len();
    while i > 0
        invariant
            i <= digits.len(),
        decreases i,
    {
        i -= 1;
        ordered.push(digits[i]);
    }
    match crate::codec::utf8_to_string(ordered.as_slice()) {
        Some(s) => s,
        None => "?".to_owned(),
    }
}

proof fn lemma_assoc_from(entries: Seq<(Seq<char>, ConfigValue)>, key: Seq<char>, i: int)
    requires
        0 <= i <= entries.len(),
        forall|j: int| 0 <= j < i ==> (#[trigger] entries[j].0) != key,
    ensures
        i < entries.len() && entries[i].0 == key ==> assoc(entries, key) == Some(entries[i].1),
        i == entries.len() ==> assoc(entries, key) is None,
    decreases i,
{
    if i > 0 {
        let tail = entries.drop_first();
        assert(forall|j: int| 0 <= j < i - 1 ==> (#[trigger] tail[j].0) == entries[j + 1].0);
        lemma_assoc_from(tail, key, i - 1);
    }
}

/// First value of a rendered mapping held under the given key.
fn find_pair<'a>(entries: &Vec<(String, &'a ConfigValue)>, key: &String) -> (r: Option<
    &'a ConfigValue,
>)
    ensures
        r matches Some(v) ==> assoc(pair_views(entries@), key@) == Some(*v),
        r is None ==> assoc(pair_views(entries@), key@) is None,
{
    let ghost pv = pair_views(entries@);
    let mut i: usize = 0;
    while i < entries.len()
        invariant
            i <= entries.len(),
            pv == pair_views(entries@),
            forall|j: int| 0 <= j < i ==> (#[trigger] pv[j].0) != key@,
        decreases entries.len() - i,
    {
        if entries[i].0 == *key {
            proof {
                assert(pv[i as int].0 == key@);
                lemma_assoc_from(pv, key@, i as int);
            }
            return Some(entries[i].1);
        }
        proof {
            assert(pv[i as int].0 == entries@[i as int].0@);
        }
        i += 1;
    }
    proof {
        lemma_assoc_from(pv, key@, pv.len() as int);
    }
    None
}

/// Renders a mapping's keys and resolves its values, in order.
fn obj_entries<'a>(es: &'a [ConfigEntry], trace: &Trace, os: &String) -> (r: Result<
    Vec<(String, &'a ConfigValue)>,
    ConfigError,
>)
    ensures
        r matches Ok(out) ==> spec_obj_entries(es@, os@) == Ok::<_, ErrorKind>(pair_views(out@)),
        r matches Err(e) ==> spec_obj_entries(es@, os@) == Err::<Seq<(Seq<char>, ConfigValue)>, ErrorKind>(e.kind),
    decreases es@.len(),
{
    if es.len() == 0 {
        let out: Vec<(String, &'a ConfigValue)> = Vec::new();
        assert(pair_views(out@) =~= Seq::<(Seq<char>, ConfigValue)>::empty());
        Ok(out)
    } else {
        let head = slice_index_get(es, 0);
        match value_to_string(&head.key, trace) {
            Err(e) => Err(e),
            Ok(k) => {
                let child_trace = trace.add(k.as_str());
                match resolve(&head.value, child_trace, os) {
                    Err(e) => Err(e),
                    Ok((rv, _tr)) => {
                        let tail = slice_subrange(es, 1, es.len());
                        assert(tail@ =~= es@.drop_first());
                        match obj_entries(tail, trace, os) {
                            Err(e) => Err(e),
                            Ok(mut rest) => {
                                let ghost before = rest@;
                                rest.insert(0, (k, rv));
                                proof {
                                    assert(rest@ =~= seq![(k, rv)] + before);
                                    assert(pair_views(rest@) =~= seq![(k@, *rv)] + pair_views(
                                        before,
                                    ));
                                }
                                Ok(rest)
                            },
                        }
                    },
                }
            },
        }
    }
}

/// Resolves each item of a command list and requires it to be a string.
fn cmd_items(items: &[ConfigValue], base: usize, trace: &Trace, os: &String) -> (r: Result<
    Vec<String>,
    ConfigError,
>)
    ensures
        r matches Ok(out) ==> spec_cmd_items(items@, os@) == Ok::<_, ErrorKind>(
            out@.map_values(|s: String| s@),
        ),
        r matches Err(e) ==> spec_cmd_items(items@, os@) == Err::<Seq<Seq<char>>, ErrorKind>(
            e.kind,
        ),
    decreases items@.len(),
{
    if items.len() == 0 {
        let out: Vec<String> = Vec::new();
        assert(out@.map_values(|s: String| s@) =~= Seq::<Seq<char>>::empty());
        Ok(out)
    } else {
        let head = slice_index_get(items, 0);
        let child_trace = trace.add(idx_string(base).as_str());
        match resolve(head, child_trace, os) {
            Err(e) => Err(e),
            Ok((rv, rtr)) => match rv {
                ConfigValue::Str(sv) => {
                    let tail = slice_subrange(items, 1, items.len());
                    assert(tail@ =~= items@.drop_first());
                    match cmd_items(tail, if base < usize::MAX { base + 1 } else { base }, trace, os) {
                        Err(e) => Err(e),
                        Ok(mut rest) => {
                            let ghost before = rest@;
                            rest.insert(0, sv.clone());
                            proof {
                                assert(rest@ =~= seq![*sv] + before);
                                assert(rest@.map_values(|s: String| s@) =~= seq![sv@]
                                    + before.map_values(|s: String| s@));
                            }
                            Ok(rest)
                        },
                    }
                },
                _ => Err(
                    ConfigError { kind: ErrorKind::ExpectedString, at: rtr.to_string() },
                ),
            },
        }
    }
}

/// Reads environment overrides from rendered pairs.
fn env_items(ps: &[(String, &ConfigValue)], trace: &Trace) -> (r: Result<
    Vec<EnvEntry>,
    ConfigError,
>)
    ensures
        r matches Ok(out) ==> spec_env(pair_views(ps@)) == Ok::<_, ErrorKind>(
            out@.map_values(|x: EnvEntry| x@),
        ),
        r matches Err(e) ==> spec_env(pair_views(ps@)) == Err::<Seq<EnvView>, ErrorKind>(e.kind),
    decreases ps@.len(),
{
    if ps.len() == 0 {
        let out: Vec<EnvEntry> = Vec::new();
        assert(out@.map_values(|x: EnvEntry| x@) =~= Seq::<EnvView>::empty());
        assert(pair_views(ps@) =~= Seq::<(Seq<char>, ConfigValue)>::empty());
        Ok(out)
    } else {
        let head = slice_index_get(ps, 0);
        proof {
            assert(pair_views(ps@)[0] == (ps@[0].0@, *ps@[0].1));
            assert(pair_views(ps@).drop_first() =~= pair_views(ps@.drop_first()));
        }
        let value: Option<String> = match head.1 {
            ConfigValue::Null => None,
            ConfigValue::Str(sv) => Some(sv.clone()),
            _ => {
                return Err(
                    ConfigError { kind: ErrorKind::ExpectedStringOrNull, at: trace.to_string() },
                );
            },
        };
        let tail = slice_subrange(ps, 1, ps.len());
        assert(tail@ =~= ps@.drop_first());
        match env_items(tail, trace) {
            Err(e) => Err(e),
            Ok(mut rest) => {
                let ghost before = rest@;
                let entry = EnvEntry { name: head.0.clone(), value };
                let ghost eview = entry@;
                rest.insert(0, entry);
                proof {
                    assert(rest@.map_values(|x: EnvEntry| x@) =~= seq![eview] + before.map_values(
                        |x: EnvEntry| x@,
                    ));
                }
                Ok(rest)
            },
        }
    }
}

impl ProcConfig {
    /// Reads one process record from its name and its already-resolved
    /// configuration value.
    pub fn from_val(name: &String, v: &ConfigValue, trace: &Trace, os: &String) -> (r: Result<
        Option<ProcConfig>,
        ConfigError,
    >)
        ensures
            r matches Ok(op) ==> (match op {
                Some(p) => spec_proc(name@, *v, os@) == Ok::<_, ErrorKind>(Some(p@)),
                None => spec_proc(name@, *v, os@) == Ok::<Option<ProcView>, ErrorKind>(None),
            }),
            r matches Err(e) ==> spec_proc(name@, *v, os@) == Err::<Option<ProcView>, ErrorKind>(
                e.kind,
            ),
    {
        let stop = StopPolicy { signal: StopSignal::Interrupt, grace_ms: 5000 };
        match v {
            ConfigValue::Null => Ok(None),
            ConfigValue::Bool(_) => Err(
                ConfigError { kind: ErrorKind::InvalidProcValue, at: trace.to_string() },
            ),
            ConfigValue::Num(_) => Err(
                ConfigError { kind: ErrorKind::InvalidProcValue, at: trace.to_string() },
            ),
            ConfigValue::Str(sh) => Ok(
                Some(
                    ProcConfig {
                        name: name.clone(),
                        cmd: CmdConfig::Shell { shell: sh.clone() },
                        cwd: None,
                        env: None,
                        autostart: true,
                        stop,
                    },
                ),
            ),
            ConfigValue::List(items) => match cmd_items(items.as_slice(), 0, trace, os) {
                Err(e) => Err(e),
                Ok(argv) => Ok(
                    Some(
                        ProcConfig {
                            name: name.clone(),
                            cmd: CmdConfig::Cmd { cmd: argv },
                            cwd: None,
                            env: None,
                            autostart: true,
                            stop,
                        },
                    ),
                ),
            },
            ConfigValue::Obj(es) => match obj_entries(es.as_slice(), trace, os) {
                Err(e) => Err(e),
                Ok(entries) => {
                    let shell_key = "shell".to_owned();
                    let cmd_key = "cmd".to_owned();
                    let env_key = "env".to_owned();
                    proof {
                        reveal_strlit("shell");
                        reveal_strlit("cmd");
                        reveal_strlit("env");
                        assert(shell_key@ =~= shell_chars());
                        assert(cmd_key@ =~= cmd_chars());
                        assert(env_key@ =~= env_chars());
                    }
                    let shell_v = find_pair(&entries, &shell_key);
                    let cmd_v = find_pair(&entries, &cmd_key);
                    let cmd: CmdConfig = match (shell_v, cmd_v) {
                        (None, Some(c)) => match c {
                            ConfigValue::List(items) => match cmd_items(
                                items.as_slice(),
                                0,
                                trace,
                                os,
                            ) {
                                Err(e) => {
                                    return Err(e);
                                },
                                Ok(argv) => CmdConfig::Cmd { cmd: argv },
                            },
                            _ => {
                                return Err(
                                    ConfigError {
                                        kind: ErrorKind::ExpectedArray,
                                        at: trace.to_string(),
                                    },
                                );
                            },
                        },
                        (Some(sv), None) => match sv {
                            ConfigValue::Str(sh) => CmdConfig::Shell { shell: sh.clone() },
                            _ => {
                                return Err(
                                    ConfigError {
                                        kind: ErrorKind::ExpectedString,
                                        at: trace.to_string(),
                                    },
                                );
                            },
                        },
                        (None, None) => {
                            return Err(
                                ConfigError {
                                    kind: ErrorKind::MissingCommand,
                                    at: trace.to_string(),
                                },
                            );
                        },
                        (Some(_), Some(_)) => {
                            return Err(
                                ConfigError {
                                    kind: ErrorKind::ConflictingCommand,
                                    at: trace.to_string(),
                                },
                            );
                        },
                    };
                    let env: Option<Vec<EnvEntry>> = match find_pair(&entries, &env_key) {
                        None => None,
                        Some(ev) => match ev {
                            ConfigValue::Obj(env_es) => match obj_entries(
                                env_es.as_slice(),
                                trace,
                                os,
                            ) {
                                Err(e) => {
                                    return Err(e);
                                },
                                Ok(ps) => match env_items(ps.as_slice(), trace) {
                                    Err(e) => {
                                        return Err(e);
                                    },
                                    Ok(items) => Some(items),
                                },
                            },
                            _ => {
                                return Err(
                                    ConfigError {
                                        kind: ErrorKind::ExpectedObject,
                                        at: trace.to_string(),
                                    },
                                );
                            },
                        },
                    };
                    Ok(
                        Some(
                            ProcConfig {
                                name: name.clone(),
                                cmd,
                                cwd: None,
                                env,
                                autostart: true,
                                stop,
                            },
                        ),
                    )
                },
            },
        }
    }
}

/// Reads the records of the `procs` mapping, skipping null entries.
fn procs_items(ps: &[(String, &ConfigValue)], trace: &Trace, os: &String) -> (r: Result<
    Vec<ProcConfig>,
    ConfigError,
>)
    ensures
        r matches Ok(out) ==> spec_procs(pair_views(ps@), os@) == Ok::<_, ErrorKind>(
            out@.map_values(|p: ProcConfig| p@),
        ),
        r matches Err(e) ==> spec_procs(pair_views(ps@), os@) == Err::<Seq<ProcView>, ErrorKind>(
            e.kind,
        ),
    decreases ps@.len(),
{
    if ps.len() == 0 {
        let out: Vec<ProcConfig> = Vec::new();
        assert(out@.map_values(|p: ProcConfig| p@) =~= Seq::<ProcView>::empty());
        assert(pair_views(ps@) =~= Seq::<(Seq<char>, ConfigValue)>::empty());
        Ok(out)
    } else {
        let head = slice_index_get(ps, 0);
        proof {
            assert(pair_views(ps@)[0] == (ps@[0].0@, *ps@[0].1));
            assert(pair_views(ps@).drop_first() =~= pair_views(ps@.drop_first()));
        }
        let child_trace = trace.add(head.0.as_str());
        match ProcConfig::from_val(&head.0, head.1, &child_trace, os) {
            Err(e) => Err(e),
            Ok(op) => {
                let tail = slice_subrange(ps, 1, ps.len());
                assert(tail@ =~= ps@.drop_first());
                match procs_items(tail, trace, os) {
                    Err(e) => Err(e),
                    Ok(mut rest) => match op {
                        None => Ok(rest),
                        Some(p) => {
                            let ghost before = rest@;
                            let ghost pview = p@;
                            rest.insert(0, p);
                            proof {
                                assert(rest@.map_values(|q: ProcConfig| q@) =~= seq![pview]
                                    + before.map_values(|q: ProcConfig| q@));
                            }
                            Ok(rest)
                        },
                    },
                }
            },
        }
    }
}

impl Config {
    /// Reads a whole configuration from an already-parsed tree; `os` names
    /// the running operating system for conditional values.
    pub fn from_value(v: &ConfigValue, os: &String) -> (r: Result<Config, ConfigError>)
        ensures
            r matches Ok(c) ==> spec_config(*v, os@) == Ok::<ConfigView, ErrorKind>(c@),
            r matches Err(e) ==> spec_config(*v, os@) == Err::<ConfigView, ErrorKind>(e.kind),
    {
        let trace = Trace::empty();
        match resolve(v, trace, os) {
            Err(e) => Err(e),
            Ok((rv, rtr)) => match rv {
                ConfigValue::Obj(es) => match obj_entries(es.as_slice(), &rtr, os) {
                    Err(e) => Err(e),
                    Ok(entries) => {
                        let procs_key = "procs".to_owned();
                        let server_key = "server".to_owned();
                        proof {
                            reveal_strlit("procs");
                            reveal_strlit("server");
                            assert(procs_key@ =~= procs_chars());
                            assert(server_key@ =~= server_chars());
                        }
                        let procs: Vec<ProcConfig> = match find_pair(&entries, &procs_key) {
                            None => Vec::new(),
                            Some(pv) => match pv {
                                ConfigValue::Obj(pes) => match obj_entries(
                                    pes.as_slice(),
                                    &rtr,
                                    os,
                                ) {
                                    Err(e) => {
                                        return Err(e);
                                    },
                                    Ok(pentries) => match procs_items(
                                        pentries.as_slice(),
                                        &rtr,
                                        os,
                                    ) {
                                        Err(e) => {
                                            return Err(e);
                                        },
                                        Ok(out) => out,
                                    },
                                },
                                _ => {
                                    return Err(
                                        ConfigError {
                                            kind: ErrorKind::ExpectedObject,
                                            at: rtr.to_string(),
                                        },
                                    );
                                },
                            },
                        };
                        let server: Option<ServerConfig> = match find_pair(&entries, &server_key) {
                            None => None,
                            Some(sv) => match sv {
                                ConfigValue::Str(a) => Some(ServerConfig::from_str(a.as_str())),
                                _ => {
                                    return Err(
                                        ConfigError {
                                            kind: ErrorKind::ExpectedString,
                                            at: rtr.to_string(),
                                        },
                                    );
                                },
                            },
                        };
                        let c = Config { procs, server };
                        proof {
                            if c.procs@.len() == 0 {
                                assert(c.procs@.map_values(|p: ProcConfig| p@)
                                    =~= Seq::<ProcView>::empty());
                            }
                        }
                        Ok(c)
                    },
                },
                _ => Err(ConfigError { kind: ErrorKind::ExpectedObject, at: rtr.to_string() }),
            },
        }
    }
}


// ------------------------------------------------------------------
// Spawn plan: what the record asks the OS to run.
// ------------------------------------------------------------------

/// Everything needed to spawn the child: program, arguments, environment
/// overrides in order, working directory.
#[derive(Debug, PartialEq, Eq)]
pub struct CommandSpec {
    pub program: String,
    pub args: Vec<String>,
    pub env: Vec<EnvEntry>,
    pub cwd: Option<String>,
}

pub struct CommandSpecView {
    pub program: Seq<char>,
    pub args: Seq<Seq<char>>,
    pub env: Seq<EnvView>,
    pub cwd: Option<Seq<char>>,
}

impl View for CommandSpec {
    type V = CommandSpecView;

    open spec fn view(&self) -> CommandSpecView {
        CommandSpecView {
            program: self.program@,
            args: self.args@.map_values(|s: String| s@),
            env: self.env@.map_values(|x: EnvEntry| x@),
            cwd: match self.cwd {
                Some(c) => Some(c@),
                None => None,
            },
        }
    }
}

/// The spawn plan a record stands for: an argument vector runs its own
/// head; a shell line runs under `cmd /C` on Windows and `sh -c` elsewhere;
/// a record without a working directory takes the supervisor's.
pub open spec fn spec_command(
    p: ProcView,
    windows: bool,
    fallback_cwd: Option<Seq<char>>,
) -> CommandSpecView {
    let pa: (Seq<char>, Seq<Seq<char>>) = match p.cmd {
        CmdView::Argv(argv) => (argv[0], argv.drop_first()),
        CmdView::Shell(sh) => if windows {
            (seq!['c', 'm', 'd'], seq![seq!['/', 'C'], sh])
        } else {
            (seq!['s', 'h'], seq![seq!['-', 'c'], sh])
        },
    };
    CommandSpecView {
        program: pa.0,
        args: pa.1,
        env: match p.env {
            Some(e) => e,
            None => Seq::empty(),
        },
        cwd: match p.cwd {
            Some(c) => Some(c),
            None => fallback_cwd,
        },
    }
}

fn dup_env(env: &Vec<EnvEntry>) -> (r: Vec<EnvEntry>)
    ensures
        r@.map_values(|x: EnvEntry| x@) == env@.map_values(|x: EnvEntry| x@),
{
    let mut out: Vec<EnvEntry> = Vec::new();
    let mut i: usize = 0;
    while i < env.len()
        invariant
            i <= env.len(),
            out@.len() == i,
            forall|j: int| 0 <= j < i ==> (#[trigger] out@[j])@ == env@[j]@,
        decreases env.len() - i,
    {
        let value = match &env[i].value {
            Some(v) => Some(v.clone()),
            None => None,
        };
        out.push(EnvEntry { name: env[i].name.clone(), value });
        i += 1;
    }
    assert(out@.map_values(|x: EnvEntry| x@) =~= env@.map_values(|x: EnvEntry| x@));
    out
}

impl ProcConfig {
    /// Builds the spawn plan for this record. An argument-vector record
    /// must have at least the program to run.
    pub fn command_spec(&self, windows: bool, fallback_cwd: Option<String>) -> (r: CommandSpec)
        requires
            self.cmd matches CmdConfig::Cmd { cmd } ==> cmd@.len() > 0,
        ensures
            r@ == spec_command(
                self@,
                windows,
                match fallback_cwd {
                    Some(c) => Some(c@),
                    None => None,
                },
            ),
    {
        let (program, args): (String, Vec<String>) = match &self.cmd {
            CmdConfig::Cmd { cmd } => {
                let program = cmd[0].clone();
                let mut args: Vec<String> = Vec::new();
                let mut i: usize = 1;
                while i < cmd.len()
                    invariant
                        1 <= i <= cmd.len(),
                        cmd@.len() > 0,
                        args@.len() == i - 1,
                        forall|j: int| 0 <= j < i - 1 ==> (#[trigger] args@[j])@ == cmd@[j + 1]@,
                    decreases cmd.len() - i,
                {
                    args.push(cmd[i].clone());
                    i += 1;
                }
                proof {
                    assert(args@.map_values(|s: String| s@) =~= cmd@.map_values(
                        |s: String| s@,
                    ).drop_first());
                }
                (program, args)
            },
            CmdConfig::Shell { shell } => {
                if windows {
                    let program = "cmd".to_owned();
                    let mut args: Vec<String> = Vec::new();
                    args.push("/C".to_owned());
                    args.push(shell.clone());
                    proof {
                        reveal_strlit("cmd");
                        reveal_strlit("/C");
                        assert(program@ =~= seq!['c', 'm', 'd']);
                        assert(args@.map_values(|s: String| s@) =~~= seq![
                            seq!['/', 'C'],
                            shell@,
                        ]);
                    }
                    (program, args)
                } else {
                    let program = "sh".to_owned();
                    let mut args: Vec<String> = Vec::new();
                    args.push("-c".to_owned());
                    args.push(shell.clone());
                    proof {
                        reveal_strlit("sh");
                        reveal_strlit("-c");
                        assert(program@ =~= seq!['s', 'h']);
                        assert(args@.map_values(|s: String| s@) =~~= seq![
                            seq!['-', 'c'],
                            shell@,
                        ]);
                    }
                    (program, args)
                }
            },
        };
        let env = match &self.env {
            Some(e) => dup_env(e),
            None => Vec::new(),
        };
        let cwd = match &self.cwd {
            Some(c) => Some(c.clone()),
            None => fallback_cwd,
        };
        let r = CommandSpec { program, args, env, cwd };
        proof {
            if self.env is None {
                assert(r.env@.map_values(|x: EnvEntry| x@) =~= Seq::<EnvView>::empty());
            }
        }
        r
    }
}

} // verus!
