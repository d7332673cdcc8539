//! The node's settings, their defaults and command-line overrides.
use vstd::prelude::*;
use crate::cluster::{opt_string_view, NodeEntry};
use crate::model::Role;
use crate::text::{chars_of, owned, parse_decimal, parse_unsigned, same_text, string_of, trim_end_char, trim_end_char_chars, string_views};

verus! {

/// The node's settings. Any field a settings file omits falls back to its default.
#[derive(Clone)]
pub struct Config {
    pub ui_port: u16,
    pub rpc_port: u16,
    pub llama_port: u16,
    pub role: Role,
    pub llama_dir: Option<String>,
    pub hf_cache_dir: Option<String>,
    pub rpc_binary: Option<String>,
    pub rpc_device: Option<String>,
    pub node_name: String,
    pub nodes: Vec<NodeEntry>,
}

/// The settings as plain values.
pub struct ConfigView {
    pub ui_port: u16,
    pub rpc_port: u16,
    pub llama_port: u16,
    pub role: Role,
    pub llama_dir: Option<Seq<char>>,
    pub hf_cache_dir: Option<Seq<char>>,
    pub rpc_binary: Option<Seq<char>>,
    pub rpc_device: Option<Seq<char>>,
    pub node_name: Seq<char>,
    pub nodes: Seq<NodeEntry>,
}

impl View for Config {
    type V = ConfigView;

    open spec fn view(&self) -> ConfigView {
        ConfigView {
            ui_port: self.ui_port,
            rpc_port: self.rpc_port,
            llama_port: self.llama_port,
            role: self.role,
            llama_dir: opt_string_view(self.llama_dir),
            hf_cache_dir: opt_string_view(self.hf_cache_dir),
            rpc_binary: opt_string_view(self.rpc_binary),
            rpc_device: opt_string_view(self.rpc_device),
            node_name: self.node_name@,
            nodes: self.nodes@,
        }
    }
}

/// The default UI port.
pub const DEFAULT_UI_PORT: u16 = 8675;

/// The default rpc-server port.
pub const DEFAULT_RPC_PORT: u16 = 50052;

/// The default llama-server port.
pub const DEFAULT_LLAMA_PORT: u16 = 8080;

/// The defaults, apart from the node's name.
pub open spec fn is_default_but_name(c: ConfigView) -> bool {
    &&& c.ui_port == DEFAULT_UI_PORT
    &&& c.rpc_port == DEFAULT_RPC_PORT
    &&& c.llama_port == DEFAULT_LLAMA_PORT
    &&& c.role == Role::Worker
    &&& c.llama_dir is None && c.hf_cache_dir is None && c.rpc_binary is None && c.rpc_device is None
    &&& c.nodes.len() == 0
}

/// `sysinfo::System::host_name`: the machine's host name, when it has one. It reads the
/// machine, so nothing is promised of what it returns.
#[verifier::external_body]
fn system_host_name() -> Option<String> {
    sysinfo::System::host_name()
}

impl Config {
    /// The default settings for a machine with the given host name; the node is named
    /// after the host, or "airpcez-node" when there is none.
    pub fn defaults_for_host(host_name: Option<String>) -> (c: Config)
        ensures
            is_default_but_name(c@),
            c.node_name@ == (match host_name {
                Some(h) => h@,
                None => "airpcez-node"@,
            }),
    {
        let node_name = match host_name {
            Some(h) => h,
            None => owned("airpcez-node"),
        };
        Config {
            ui_port: DEFAULT_UI_PORT,
            rpc_port: DEFAULT_RPC_PORT,
            llama_port: DEFAULT_LLAMA_PORT,
            role: Role::Worker,
            llama_dir: None,
            hf_cache_dir: None,
            rpc_binary: None,
            rpc_device: None,
            node_name,
            nodes: Vec::new(),
        }
    }
}

impl Default for Config {
    /// The defaults, named after this machine's host name.
    fn default() -> (c: Self)
        ensures
            is_default_but_name(c@),
    {
        Config::defaults_for_host(system_host_name())
    }
}

/// The rpc-server binary: an explicit `rpc_binary`, else `<llama_dir>/rpc-server` (without
/// doubling a trailing '/'), else bare `rpc-server` (looked up on PATH).
pub open spec fn spec_rpc_binary_path(c: ConfigView) -> Seq<char> {
    match c.rpc_binary {
        Some(b) => b,
        None => match c.llama_dir {
            Some(d) => trim_end_char(d, '/') + "/rpc-server"@,
            None => "rpc-server"@,
        },
    }
}

/// The rpc-server `-d` filter: an explicit `rpc_device`, else `MTL0` on Apple Silicon,
/// where RAM and VRAM are unified, else none (serve every device).
pub open spec fn spec_rpc_device_filter(c: ConfigView, apple_silicon: bool) -> Option<Seq<char>> {
    match c.rpc_device {
        Some(d) => Some(d),
        None => if apple_silicon {
            Some("MTL0"@)
        } else {
            None
        },
    }
}

impl Config {
    /// Resolve the rpc-server binary for `--worker` autostart.
    pub fn rpc_binary_path(&self) -> (p: String)
        ensures
            p@ == spec_rpc_binary_path(self@),
    {
        match &self.rpc_binary {
            Some(b) => b.clone(),
            None => match &self.llama_dir {
                Some(d) => {
                    let dc = chars_of(d.as_str());
                    let t = trim_end_char_chars(&dc, '/');
                    let mut p = string_of(&t);
                    p.append("/rpc-server");
                    p
                },
                None => owned("rpc-server"),
            },
        }
    }

    /// The rpc-server device filter for this worker on this platform (`apple_silicon`:
    /// macOS on aarch64).
    pub fn rpc_device_filter(&self, apple_silicon: bool) -> (d: Option<String>)
        ensures
            opt_string_view(d) == spec_rpc_device_filter(self@, apple_silicon),
    {
        if let Some(d) = &self.rpc_device {
            return Some(d.clone());
        }
        if apple_silicon {
            Some(owned("MTL0"))
        } else {
            None
        }
    }
}

/// One `--flag value` override: the settings after it, and whether the value was used.
/// Unknown flags, missing values and unparseable ports change nothing.
pub open spec fn apply_flag(c: ConfigView, flag: Seq<char>, value: Option<Seq<char>>) -> (
    ConfigView,
    bool,
) {
    match value {
        None => (c, false),
        Some(v) => if flag == "--ui-port"@ {
            match parse_unsigned(v, u16::MAX as nat) {
                Some(p) => (ConfigView { ui_port: p as u16, ..c }, true),
                None => (c, false),
            }
        } else if flag == "--rpc-port"@ {
            match parse_unsigned(v, u16::MAX as nat) {
                Some(p) => (ConfigView { rpc_port: p as u16, ..c }, true),
                None => (c, false),
            }
        } else if flag == "--llama-port"@ {
            match parse_unsigned(v, u16::MAX as nat) {
                Some(p) => (ConfigView { llama_port: p as u16, ..c }, true),
                None => (c, false),
            }
        } else if flag == "--role"@ {
            (
                ConfigView {
                    role: if v == "host"@ {
                        Role::Host
                    } else {
                        Role::Worker
                    },
                    ..c
                },
                true,
            )
        } else if flag == "--llama-dir"@ {
            (ConfigView { llama_dir: Some(v), ..c }, true)
        } else if flag == "--hf-cache-dir"@ {
            (ConfigView { hf_cache_dir: Some(v), ..c }, true)
        } else if flag == "--rpc-binary"@ {
            (ConfigView { rpc_binary: Some(v), ..c }, true)
        } else if flag == "--rpc-device"@ {
            (ConfigView { rpc_device: Some(v), ..c }, true)
        } else if flag == "--node-name"@ {
            (ConfigView { node_name: v, ..c }, true)
        } else {
            (c, false)
        },
    }
}

/// The settings after applying the overrides from argument `i` on.
pub open spec fn after_overrides(c: ConfigView, args: Seq<Seq<char>>, i: int) -> ConfigView
    decreases args.len() - i,
{
    if i < 0 || i >= args.len() {
        c
    } else {
        let value = if i + 1 < args.len() {
            Some(args[i + 1])
        } else {
            None
        };
        let (next, used) = apply_flag(c, args[i], value);
        after_overrides(next, args, if used {
            i + 2
        } else {
            i + 1
        })
    }
}

/// Parses a port number.
fn parse_port(v: &str) -> (r: Option<u16>)
    ensures
        match r {
            Some(p) => parse_unsigned(v@, u16::MAX as nat) == Some(p as nat),
            None => parse_unsigned(v@, u16::MAX as nat) is None,
        },
{
    let cs = chars_of(v);
    match parse_decimal(&cs, u16::MAX as u64) {
        Some(p) => Some(p as u16),
        None => None,
    }
}

/// Applies one `--flag value` pair; true when the value was used.
fn apply_one(config: &mut Config, flag: &str, value: Option<&String>) -> (used: bool)
    ensures
        (final(config)@, used) == apply_flag(
            old(config)@,
            flag@,
            match value {
                Some(v) => Some(v@),
                None => None,
            },
        ),
{
    let v = match value {
        Some(v) => v,
        None => return false,
    };
    if same_text(flag, "--ui-port") {
        match parse_port(v.as_str()) {
            Some(p) => {
                config.ui_port = p;
                true
            },
            None => false,
        }
    } else if same_text(flag, "--rpc-port") {
        match parse_port(v.as_str()) {
            Some(p) => {
                config.rpc_port = p;
                true
            },
            None => false,
        }
    } else if same_text(flag, "--llama-port") {
        match parse_port(v.as_str()) {
            Some(p) => {
                config.llama_port = p;
                true
            },
            None => false,
        }
    } else if same_text(flag, "--role") {
        config.role = if same_text(v.as_str(), "host") {
            Role::Host
        } else {
            Role::Worker
        };
        true
    } else if same_text(flag, "--llama-dir") {
        config.llama_dir = Some(v.clone());
        true
    } else if same_text(flag, "--hf-cache-dir") {
        config.hf_cache_dir = Some(v.clone());
        true
    } else if same_text(flag, "--rpc-binary") {
        config.rpc_binary = Some(v.clone());
        true
    } else if same_text(flag, "--rpc-device") {
        config.rpc_device = Some(v.clone());
        true
    } else if same_text(flag, "--node-name") {
        config.node_name = v.clone();
        true
    } else {
        false
    }
}

/// Apply `--<flag> <value>` pairs from `args` onto `config`, returning the new settings.
/// Unknown flags and flags whose value is missing or unparseable are ignored.
pub fn apply_cli_overrides(config: Config, args: &[String]) -> (c: Config)
    ensures
        c@ == after_overrides(config@, string_views(args@), 0),
{
    let mut config = config;
    let ghost start = config@;
    let ghost av = string_views(args@);
    let mut i: usize = 0;
    while i < args.len()
        invariant
            av == string_views(args@),
            i <= args@.len() + 1,
            after_overrides(start, av, 0) == after_overrides(config@, av, i as int),
        decreases args.len() - i,
    {
        let value = if i + 1 < args.len() {
            Some(&args[i + 1])
        } else {
            None
        };
        let ghost before = config@;
        let used = apply_one(&mut config, args[i].as_str(), value);
        assert(after_overrides(before, av, i as int) == after_overrides(config@, av, if used {
            i + 2
        } else {
            i + 1
        }));
        if used {
            i = i + 1;
        }
        i = i + 1;
    }
    config
}

/// Command-line overrides never change the configured nodes.
pub proof fn law_overrides_keep_nodes(c: ConfigView, args: Seq<Seq<char>>, i: int)
    ensures
        after_overrides(c, args, i).nodes == c.nodes,
    decreases args.len() - i,
{
    if 0 <= i < args.len() {
        let value = if i + 1 < args.len() {
            Some(args[i + 1])
        } else {
            None
        };
        let (next, used) = apply_flag(c, args[i], value);
        law_overrides_keep_nodes(next, args, if used {
            i + 2
        } else {
            i + 1
        });
    }
}

/// The setting a flag writes: 0 `ui_port`, 1 `rpc_port`, 2 `llama_port`, 3 `role`,
/// 4 `llama_dir`, 5 `hf_cache_dir`, 6 `rpc_binary`, 7 `rpc_device`, 8 `node_name`; -1 for
/// an unknown flag.
pub open spec fn flag_field(f: Seq<char>) -> int {
    if f == "--ui-port"@ {
        0
    } else if f == "--rpc-port"@ {
        1
    } else if f == "--llama-port"@ {
        2
    } else if f == "--role"@ {
        3
    } else if f == "--llama-dir"@ {
        4
    } else if f == "--hf-cache-dir"@ {
        5
    } else if f == "--rpc-binary"@ {
        6
    } else if f == "--rpc-device"@ {
        7
    } else if f == "--node-name"@ {
        8
    } else {
        -1
    }
}

/// Whether a flag and the token after it are applied: a known flag with a value, and for
/// a port flag a value that parses as a port. This does not depend on the settings.
pub open spec fn flag_applies(f: Seq<char>, v: Option<Seq<char>>) -> bool {
    &&& v is Some
    &&& flag_field(f) >= 0
    &&& (flag_field(f) <= 2 ==> parse_unsigned(v->0, u16::MAX as nat) is Some)
}

/// The token after argument `i`, if any.
pub open spec fn value_after(args: Seq<Seq<char>>, i: int) -> Option<Seq<char>> {
    if i + 1 < args.len() {
        Some(args[i + 1])
    } else {
        None
    }
}

/// Whether the overrides from argument `i` on write setting `k`.
pub open spec fn field_set(args: Seq<Seq<char>>, i: int, k: int) -> bool
    decreases args.len() - i,
{
    if i < 0 || i >= args.len() {
        false
    } else {
        let applies = flag_applies(args[i], value_after(args, i));
        (applies && flag_field(args[i]) == k) || field_set(
            args,
            if applies {
                i + 2
            } else {
                i + 1
            },
            k,
        )
    }
}

/// Settings `a` and `b` agree on setting `k` (9 and beyond: the node list).
pub open spec fn same_field(a: ConfigView, b: ConfigView, k: int) -> bool {
    if k == 0 {
        a.ui_port == b.ui_port
    } else if k == 1 {
        a.rpc_port == b.rpc_port
    } else if k == 2 {
        a.llama_port == b.llama_port
    } else if k == 3 {
        a.role == b.role
    } else if k == 4 {
        a.llama_dir == b.llama_dir
    } else if k == 5 {
        a.hf_cache_dir == b.hf_cache_dir
    } else if k == 6 {
        a.rpc_binary == b.rpc_binary
    } else if k == 7 {
        a.rpc_device == b.rpc_device
    } else if k == 8 {
        a.node_name == b.node_name
    } else {
        a.nodes == b.nodes
    }
}

/// One override: applied exactly when `flag_applies`; it writes only its own setting,
/// and what it writes does not depend on the settings it starts from.
proof fn lemma_apply_flag(c: ConfigView, d: ConfigView, f: Seq<char>, v: Option<Seq<char>>)
    ensures
        apply_flag(c, f, v).1 == flag_applies(f, v),
        forall|k: int|
            !(flag_applies(f, v) && flag_field(f) == k) ==> #[trigger] same_field(apply_flag(c, f, v).0, c, k),
        flag_applies(f, v) ==> same_field(apply_flag(c, f, v).0, apply_flag(d, f, v).0, flag_field(f)),
{
}

/// After the overrides from argument `i` on, a setting they do not write keeps its value,
/// and a setting they write gets a value that does not depend on the starting settings.
proof fn lemma_after_overrides(c: ConfigView, d: ConfigView, args: Seq<Seq<char>>, i: int)
    ensures
        forall|k: int| !field_set(args, i, k) ==> #[trigger] same_field(after_overrides(c, args, i), c, k),
        forall|k: int|
            field_set(args, i, k) ==> #[trigger] same_field(
                after_overrides(c, args, i),
                after_overrides(d, args, i),
                k,
            ),
    decreases args.len() - i,
{
    if 0 <= i < args.len() {
        let v = value_after(args, i);
        lemma_apply_flag(c, d, args[i], v);
        let cn = apply_flag(c, args[i], v).0;
        let dn = apply_flag(d, args[i], v).0;
        let applies = flag_applies(args[i], v);
        let next = if applies {
            i + 2
        } else {
            i + 1
        };
        lemma_after_overrides(cn, dn, args, next);
        lemma_after_overrides(dn, cn, args, next);
        assert(after_overrides(c, args, i) == after_overrides(cn, args, next));
        assert(after_overrides(d, args, i) == after_overrides(dn, args, next));
        lemma_apply_flag(d, c, args[i], v);
        let ac = after_overrides(cn, args, next);
        let ad = after_overrides(dn, args, next);
        assert forall|k: int| !field_set(args, i, k) implies #[trigger] same_field(
            after_overrides(c, args, i),
            c,
            k,
        ) by {
            assert(!field_set(args, next, k));
            assert(same_field(ac, cn, k));
            assert(same_field(cn, c, k));
        }
        assert forall|k: int| field_set(args, i, k) implies #[trigger] same_field(
            after_overrides(c, args, i),
            after_overrides(d, args, i),
            k,
        ) by {
            if field_set(args, next, k) {
                assert(same_field(ac, ad, k));
            } else {
                assert(applies && flag_field(args[i]) == k);
                assert(same_field(ac, cn, k));
                assert(same_field(ad, dn, k));
                assert(same_field(cn, dn, k));
            }
        }
    }
}

/// Each setting keeps its value unless its flag is followed by a usable value (a valid
/// port for the port flags, anything for the others); unknown flags and the node list are
/// never written, and what a written setting ends up as does not depend on the settings
/// the overrides start from.
pub proof fn law_overrides_per_field(c: ConfigView, d: ConfigView, args: Seq<Seq<char>>)
    ensures
        forall|k: int| !field_set(args, 0, k) ==> #[trigger] same_field(after_overrides(c, args, 0), c, k),
        forall|k: int|
            field_set(args, 0, k) ==> #[trigger] same_field(
                after_overrides(c, args, 0),
                after_overrides(d, args, 0),
                k,
            ),
        !field_set(args, 0, 9),
        after_overrides(c, args, 0).nodes == c.nodes,
{
    lemma_after_overrides(c, d, args, 0);
    lemma_field_set_range(args, 0);
    law_overrides_keep_nodes(c, args, 0);
}

/// Overrides only ever write settings 0 to 8.
proof fn lemma_field_set_range(args: Seq<Seq<char>>, i: int)
    ensures
        !field_set(args, i, 9),
    decreases args.len() - i,
{
    if 0 <= i < args.len() {
        let applies = flag_applies(args[i], value_after(args, i));
        lemma_field_set_range(
            args,
            if applies {
                i + 2
            } else {
                i + 1
            },
        );
    }
}

/// Applying the same overrides twice is the same as applying them once, and no overrides
/// change nothing.
pub proof fn law_overrides_idempotent(c: ConfigView, args: Seq<Seq<char>>)
    ensures
        after_overrides(after_overrides(c, args, 0), args, 0) == after_overrides(c, args, 0),
        after_overrides(c, Seq::empty(), 0) == c,
{
    let r = after_overrides(c, args, 0);
    let rr = after_overrides(r, args, 0);
    lemma_after_overrides(r, c, args, 0);
    assert forall|k: int| 0 <= k <= 9 implies #[trigger] same_field(rr, r, k) by {
        if field_set(args, 0, k) {
            assert(same_field(rr, after_overrides(c, args, 0), k));
        } else {
            assert(same_field(rr, r, k));
        }
    }
    assert(same_field(rr, r, 0) && same_field(rr, r, 1) && same_field(rr, r, 2));
    assert(same_field(rr, r, 3) && same_field(rr, r, 4) && same_field(rr, r, 5));
    assert(same_field(rr, r, 6) && same_field(rr, r, 7) && same_field(rr, r, 8));
    assert(same_field(rr, r, 9));
    assert(rr == r);
}

/// A flag followed by one value.
pub open spec fn flag_pair(f: Seq<char>, v: Seq<char>) -> Seq<Seq<char>> {
    seq![f, v]
}

/// Reveals the flag names, so that they can be told apart.
proof fn reveal_flag_names()
    ensures
        "--ui-port"@ != "--rpc-port"@ && "--ui-port"@ != "--llama-port"@ && "--rpc-port"@ != "--llama-port"@,
        flag_field("--ui-port"@) == 0 && flag_field("--rpc-port"@) == 1 && flag_field("--llama-port"@) == 2,
        flag_field("--role"@) == 3 && flag_field("--llama-dir"@) == 4 && flag_field("--hf-cache-dir"@) == 5,
        flag_field("--rpc-binary"@) == 6 && flag_field("--rpc-device"@) == 7 && flag_field("--node-name"@) == 8,
{
    reveal_strlit("--ui-port");
    reveal_strlit("--rpc-port");
    reveal_strlit("--llama-port");
    reveal_strlit("--role");
    reveal_strlit("--llama-dir");
    reveal_strlit("--hf-cache-dir");
    reveal_strlit("--rpc-binary");
    reveal_strlit("--rpc-device");
    reveal_strlit("--node-name");
    assert("--ui-port"@.len() == 9 && "--rpc-port"@.len() == 10 && "--llama-port"@.len() == 12);
    assert("--role"@.len() == 6 && "--llama-dir"@.len() == 11 && "--hf-cache-dir"@.len() == 14);
    assert("--rpc-binary"@.len() == 12 && "--rpc-device"@.len() == 12 && "--node-name"@.len() == 11);
    assert("--llama-port"@[2] != "--rpc-binary"@[2] && "--llama-port"@[2] != "--rpc-device"@[2]);
    assert("--rpc-binary"@[6] != "--rpc-device"@[6]);
    assert("--llama-dir"@[2] != "--node-name"@[2]);
}

/// A flag followed by a usable value writes that value into its own setting and leaves
/// every other setting alone: a port flag followed by a number that parses as a port sets
/// that port to the number; `--role` sets the host role for "host" and the worker role
/// otherwise; the directory, binary and device flags set their setting to the value, and
/// `--node-name` sets the name. A port flag followed by something that is not a port
/// changes nothing.
pub proof fn law_flag_sets_its_setting(c: ConfigView, v: Seq<char>)
    ensures
        forall|f: Seq<char>, k: int|
            0 <= flag_field(f) <= 8 && k != flag_field(f) && (flag_field(f) <= 2 ==> parse_unsigned(
                v,
                u16::MAX as nat,
            ) is Some) ==> #[trigger] same_field(after_overrides(c, flag_pair(f, v), 0), c, k),
        parse_unsigned(v, u16::MAX as nat) matches Some(p) ==> {
            &&& after_overrides(c, seq!["--ui-port"@, v], 0).ui_port == p
            &&& after_overrides(c, seq!["--rpc-port"@, v], 0).rpc_port == p
            &&& after_overrides(c, seq!["--llama-port"@, v], 0).llama_port == p
        },
        parse_unsigned(v, u16::MAX as nat) is None ==> {
            &&& after_overrides(c, seq!["--ui-port"@, v], 0) == c
            &&& after_overrides(c, seq!["--rpc-port"@, v], 0) == c
            &&& after_overrides(c, seq!["--llama-port"@, v], 0) == c
        },
        after_overrides(c, seq!["--role"@, v], 0).role == (if v == "host"@ {
            Role::Host
        } else {
            Role::Worker
        }),
        after_overrides(c, seq!["--llama-dir"@, v], 0).llama_dir == Some(v),
        after_overrides(c, seq!["--hf-cache-dir"@, v], 0).hf_cache_dir == Some(v),
        after_overrides(c, seq!["--rpc-binary"@, v], 0).rpc_binary == Some(v),
        after_overrides(c, seq!["--rpc-device"@, v], 0).rpc_device == Some(v),
        after_overrides(c, seq!["--node-name"@, v], 0).node_name == v,
{
    reveal_flag_names();
    assert forall|f: Seq<char>, k: int|
        0 <= flag_field(f) <= 8 && k != flag_field(f) && (flag_field(f) <= 2 ==> parse_unsigned(
            v,
            u16::MAX as nat,
        ) is Some) implies #[trigger] same_field(after_overrides(c, flag_pair(f, v), 0), c, k) by {
        let args = flag_pair(f, v);
        lemma_apply_flag(c, c, f, Some(v));
        assert(value_after(args, 0) == Some(v));
        assert(flag_applies(f, Some(v)));
        assert(after_overrides(c, args, 0) == after_overrides(apply_flag(c, f, Some(v)).0, args, 2));
    }
    let fl = seq!["--ui-port"@, "--rpc-port"@, "--llama-port"@, "--role"@, "--llama-dir"@,
        "--hf-cache-dir"@, "--rpc-binary"@, "--rpc-device"@, "--node-name"@];
    assert forall|j: int| 0 <= j < 9 implies {
        let args = seq![#[trigger] fl[j], v];
        after_overrides(c, args, 0) == (if flag_applies(fl[j], Some(v)) {
            apply_flag(c, fl[j], Some(v)).0
        } else {
            after_overrides(c, args, 1)
        })
    } by {
        let args = seq![fl[j], v];
        assert(value_after(args, 0) == Some(v));
        lemma_apply_flag(c, c, fl[j], Some(v));
        let a = apply_flag(c, fl[j], Some(v)).0;
        assert(after_overrides(a, args, 2) == a);
        if !flag_applies(fl[j], Some(v)) {
            assert(apply_flag(c, fl[j], Some(v)).0 == c);
        }
    }
    assert(fl[0] == "--ui-port"@ && fl[1] == "--rpc-port"@ && fl[2] == "--llama-port"@);
    assert(fl[3] == "--role"@ && fl[4] == "--llama-dir"@ && fl[5] == "--hf-cache-dir"@);
    assert(fl[6] == "--rpc-binary"@ && fl[7] == "--rpc-device"@ && fl[8] == "--node-name"@);
    if parse_unsigned(v, u16::MAX as nat) is None {
        assert forall|j: int| 0 <= j < 3 implies after_overrides(c, seq![#[trigger] fl[j], v], 1) == c by {
            let args = seq![fl[j], v];
            assert(value_after(args, 1) is None);
            assert(args[1] == v);
            assert(apply_flag(c, v, None) == (c, false));
            assert(after_overrides(c, args, 2) == c);
        }
    }
}

} // verus!
