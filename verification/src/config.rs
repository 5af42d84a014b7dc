//! How an endpoint is set up: its flags and environment, the relay it joins, the names it is
//! bound to, and the identity it takes.

use vstd::prelude::*;

use crate::source::opt_text;
use crate::text::{
    law_trim_end_char_cuts_the_run, lower, lower_char, parse_u32, same_text, to_lower,
    trim_end_char, u32_of, without_trailing,
};

verus! {

/// The cap on a translated response where none is given, in bytes.
pub const DEFAULT_MAX_RESP: u32 = 8_388_608;

/// What the operator asked for.
pub struct CliConfig {
    pub listen: String,
    pub origin: Option<String>,
    pub domain: Option<String>,
    pub identity_file: Option<String>,
    pub max_resp: u32,
    pub print_address: bool,
    /// The relay to join, so that the endpoint can be reached by its address on the mesh.
    pub relay: Option<String>,
    /// Whether a flag decided on the relay, which the environment then does not.
    pub relay_cli_set: bool,
    /// The arguments that mean nothing, in order.
    pub ignored: Vec<String>,
}

/// What the operator asked for, as texts.
#[verifier::ext_equal]
pub struct ConfigSpec {
    pub listen: Seq<char>,
    pub origin: Option<Seq<char>>,
    pub domain: Option<Seq<char>>,
    pub identity_file: Option<Seq<char>>,
    pub max_resp: u32,
    pub print_address: bool,
    pub relay: Option<Seq<char>>,
    pub relay_cli_set: bool,
    pub ignored: Seq<Seq<char>>,
}

/// The texts of a list of strings.
pub open spec fn texts(v: Seq<String>) -> Seq<Seq<char>> {
    v.map_values(|s: String| s@)
}

impl View for CliConfig {
    type V = ConfigSpec;

    open spec fn view(&self) -> ConfigSpec {
        ConfigSpec {
            listen: self.listen@,
            origin: opt_text(self.origin),
            domain: opt_text(self.domain),
            identity_file: opt_text(self.identity_file),
            max_resp: self.max_resp,
            print_address: self.print_address,
            relay: opt_text(self.relay),
            relay_cli_set: self.relay_cli_set,
            ignored: texts(self.ignored@),
        }
    }
}

/// A text that is there and not empty.
pub open spec fn given(s: Option<&str>) -> Option<Seq<char>> {
    match s {
        Some(t) if t@.len() > 0 => Some(t@),
        _ => None,
    }
}

/// What holds where no flag is given. The environment can name the port to serve on, the domain
/// and the identity file.
pub open spec fn defaults(
    port: Option<&str>,
    domain: Option<&str>,
    identity_file: Option<&str>,
) -> ConfigSpec {
    ConfigSpec {
        listen: match given(port) {
            Some(p) => "0.0.0.0:"@ + p,
            None => "0.0.0.0:9444"@,
        },
        origin: None,
        domain: given(domain),
        identity_file: given(identity_file),
        max_resp: DEFAULT_MAX_RESP,
        print_address: false,
        relay: Some("wss://relay.hopme.sh/"@),
        relay_cli_set: false,
        ignored: Seq::empty(),
    }
}

fn owned(s: Option<&str>) -> (r: Option<String>)
    ensures
        opt_text(r) == given(s),
{
    match s {
        Some(t) => if t.is_empty() {
            None
        } else {
            Some(String::from_str(t))
        },
        None => None,
    }
}

/// The set-up where no flag is given.
pub fn default_config(
    port: Option<&str>,
    domain: Option<&str>,
    identity_file: Option<&str>,
) -> (r: CliConfig)
    ensures
        r@ == defaults(port, domain, identity_file),
{
    let listen = match owned(port) {
        Some(p) => String::from_str("0.0.0.0:").concat(p.as_str()),
        None => String::from_str("0.0.0.0:9444"),
    };
    let r = CliConfig {
        listen,
        origin: None,
        domain: owned(domain),
        identity_file: owned(identity_file),
        max_resp: DEFAULT_MAX_RESP,
        print_address: false,
        relay: Some(String::from_str("wss://relay.hopme.sh/")),
        relay_cli_set: false,
        ignored: Vec::new(),
    };
    assert(r@ =~= defaults(port, domain, identity_file));
    r
}

/// The flags that are followed by a value.
pub open spec fn takes_value(flag: Seq<char>) -> bool {
    ||| flag == "--listen"@
    ||| flag == "--origin"@
    ||| flag == "--domain"@
    ||| flag == "--identity-file"@
    ||| flag == "--max-resp"@
    ||| flag == "--relay"@
}

/// What a flag with its value does. A flag at the end of the arguments has no value: an address
/// to listen on and a cap then stay as they were, and so does the cap where the value is no
/// number; the other flags unset what they name.
pub open spec fn with_value(c: ConfigSpec, flag: Seq<char>, value: Option<Seq<char>>) -> ConfigSpec {
    if flag == "--listen"@ {
        ConfigSpec {
            listen: match value {
                Some(v) => v,
                None => c.listen,
            },
            ..c
        }
    } else if flag == "--origin"@ {
        ConfigSpec { origin: value, ..c }
    } else if flag == "--domain"@ {
        ConfigSpec { domain: value, ..c }
    } else if flag == "--identity-file"@ {
        ConfigSpec { identity_file: value, ..c }
    } else if flag == "--max-resp"@ {
        ConfigSpec {
            max_resp: match value {
                Some(v) => match u32_of(v) {
                    Some(n) => n,
                    None => c.max_resp,
                },
                None => c.max_resp,
            },
            ..c
        }
    } else {
        ConfigSpec { relay: value, relay_cli_set: true, ..c }
    }
}

/// What an argument without a value does: it runs the endpoint without a relay, asks for the
/// address, or means nothing and is set aside.
pub open spec fn with_flag(c: ConfigSpec, flag: Seq<char>) -> ConfigSpec {
    if flag == "--no-relay"@ {
        ConfigSpec { relay: None, relay_cli_set: true, ..c }
    } else if flag == "--print-address"@ {
        ConfigSpec { print_address: true, ..c }
    } else {
        ConfigSpec { ignored: c.ignored.push(flag), ..c }
    }
}

/// The set-up that the arguments make of `c`, read from the left.
pub open spec fn configured(c: ConfigSpec, args: Seq<Seq<char>>) -> ConfigSpec
    decreases args.len(),
{
    if args.len() == 0 {
        c
    } else if !takes_value(args[0]) {
        configured(with_flag(c, args[0]), args.skip(1))
    } else if args.len() == 1 {
        with_value(c, args[0], None)
    } else {
        configured(with_value(c, args[0], Some(args[1])), args.skip(2))
    }
}

fn set_value(config: CliConfig, flag: &str, value: Option<String>) -> (r: CliConfig)
    requires
        takes_value(flag@),
    ensures
        r@ == with_value(config@, flag@, opt_text(value)),
{
    let mut c = config;
    if same_text(flag, "--listen") {
        match value {
            Some(v) => {
                c.listen = v;
            },
            None => {},
        }
    } else if same_text(flag, "--origin") {
        c.origin = value;
    } else if same_text(flag, "--domain") {
        c.domain = value;
    } else if same_text(flag, "--identity-file") {
        c.identity_file = value;
    } else if same_text(flag, "--max-resp") {
        match value {
            Some(v) => {
                match parse_u32(v.as_str()) {
                    Some(n) => {
                        c.max_resp = n;
                    },
                    None => {},
                }
            },
            None => {},
        }
    } else {
        c.relay = value;
        c.relay_cli_set = true;
    }
    assert(c@ =~= with_value(config@, flag@, opt_text(value)));
    c
}

fn set_flag(config: CliConfig, flag: &String) -> (r: CliConfig)
    ensures
        r@ == with_flag(config@, flag@),
{
    let mut c = config;
    if same_text(flag.as_str(), "--no-relay") {
        c.relay = None;
        c.relay_cli_set = true;
    } else if same_text(flag.as_str(), "--print-address") {
        c.print_address = true;
    } else {
        c.ignored.push(flag.clone());
        assert(texts(c.ignored@) =~= texts(config.ignored@).push(flag@));
    }
    assert(c@ =~= with_flag(config@, flag@));
    c
}

fn wants_value(flag: &str) -> (r: bool)
    ensures
        r == takes_value(flag@),
{
    same_text(flag, "--listen") || same_text(flag, "--origin") || same_text(flag, "--domain")
        || same_text(flag, "--identity-file") || same_text(flag, "--max-resp") || same_text(
        flag,
        "--relay",
    )
}

/// Reads the arguments on top of `defaults`. An argument that means nothing is set aside, never
/// fatal.
pub fn parse_args_over(defaults: CliConfig, args: &Vec<String>) -> (r: CliConfig)
    ensures
        r@ == configured(defaults@, texts(args@)),
{
    let mut c = defaults;
    let mut i: usize = 0;
    let ghost all = texts(args@);
    assert(all.skip(0) =~= all);
    while i < args.len()
        invariant
            i <= args@.len(),
            all == texts(args@),
            configured(c@, all.skip(i as int)) == configured(defaults@, all),
        decreases args@.len() - i,
    {
        let flag = &args[i];
        let ghost left = all.skip(i as int);
        assert(left[0] == flag@);
        if wants_value(flag.as_str()) {
            if i + 1 < args.len() {
                let value = args[i + 1].clone();
                assert(left[1] == value@);
                assert(left.skip(2) =~= all.skip(i + 2));
                c = set_value(c, flag.as_str(), Some(value));
                i = i + 2;
            } else {
                c = set_value(c, flag.as_str(), None);
                i = i + 1;
                assert(all.skip(i as int) =~= Seq::<Seq<char>>::empty());
            }
        } else {
            assert(left.skip(1) =~= all.skip(i + 1));
            c = set_flag(c, flag);
            i = i + 1;
        }
    }
    c
}

/// Reads the arguments on top of the documented defaults.
pub fn parse_args(args: &Vec<String>) -> (r: CliConfig)
    ensures
        r@ == configured(defaults(None, None, None), texts(args@)),
{
    let c = default_config(None, None, None);
    parse_args_over(c, args)
}

/// The words that turn the relay off.
pub open spec fn means_no_relay(s: Option<&str>) -> bool {
    s is Some && (s->0@ == "1"@ || s->0@ == "true"@ || s->0@ == "yes"@)
}

/// The relay that is joined.
pub open spec fn relay_joined(
    relay: Option<Seq<char>>,
    relay_cli_set: bool,
    env_no_relay: Option<&str>,
    env_relay: Option<&str>,
) -> Option<Seq<char>> {
    if relay_cli_set {
        relay
    } else if means_no_relay(env_no_relay) {
        None
    } else if given(env_relay) is Some {
        given(env_relay)
    } else {
        relay
    }
}

/// The relay to join: what a flag said, else none where the environment turns the relay off, else
/// the one that the environment names, else the default.
pub fn resolve_relay(
    relay: Option<String>,
    relay_cli_set: bool,
    env_no_relay: Option<&str>,
    env_relay: Option<&str>,
) -> (r: Option<String>)
    ensures
        opt_text(r) == (if relay_cli_set {
            opt_text(relay)
        } else if means_no_relay(env_no_relay) {
            None
        } else if given(env_relay) is Some {
            given(env_relay)
        } else {
            opt_text(relay)
        }),
        opt_text(r) == relay_joined(opt_text(relay), relay_cli_set, env_no_relay, env_relay),
{
    if relay_cli_set {
        return relay;
    }
    match env_no_relay {
        Some(s) => if same_text(s, "1") || same_text(s, "true") || same_text(s, "yes") {
            return None;
        },
        None => {},
    }
    match owned(env_relay) {
        Some(url) => Some(url),
        None => relay,
    }
}

/// An origin without the slashes at its end, so that origin and path join with one.
pub open spec fn normal_origin(s: Seq<char>) -> Seq<char> {
    trim_end_char(s, '/')
}

/// A host name without the dots at its end, in small letters.
pub open spec fn normal_host(s: Seq<char>) -> Seq<char> {
    lower(trim_end_char(s, '.'))
}

/// The origin as requests are sent to it.
pub fn normalize_origin(s: &str) -> (r: String)
    ensures
        r@ == normal_origin(s@),
{
    without_trailing(s, '/')
}

/// A host name as it is compared.
pub fn normalize_host(s: &str) -> (r: String)
    ensures
        r@ == normal_host(s@),
{
    let t = without_trailing(s, '.');
    to_lower(t.as_str())
}

/// No slash stands at the end of a normal origin, and slashes put there make no difference.
pub proof fn law_origin_normal_form(s: Seq<char>)
    ensures
        normal_origin(s).len() == 0 || normal_origin(s).last() != '/',
        normal_origin(normal_origin(s)) == normal_origin(s),
        normal_origin(s.push('/')) == normal_origin(s),
        normal_origin(s).len() <= s.len(),
        s == normal_origin(s) + Seq::new((s.len() - normal_origin(s).len()) as nat, |i: int| '/'),
{
    lemma_trim_end_char_cuts(s, '/');
    lemma_trim_end_char(s, '/');
    lemma_trim_end_char_stays(normal_origin(s), '/');
    assert(s.push('/').drop_last() =~= s);
}

/// Host names are compared without regard to ASCII case or to dots at the end, and a normal host
/// name is its own normal form.
pub proof fn law_host_normal_form(s: Seq<char>)
    ensures
        normal_host(normal_host(s)) == normal_host(s),
        normal_host(lower(s)) == normal_host(s),
        normal_host(s.push('.')) == normal_host(s),
        normal_host(s).len() == 0 || normal_host(s).last() != '.',
        normal_host(s).len() <= s.len(),
        lower(s) == normal_host(s) + Seq::new((s.len() - normal_host(s).len()) as nat, |i: int| '.'),
{
    lemma_trim_end_char_cuts(s, '.');
    let cut = Seq::new((s.len() - trim_end_char(s, '.').len()) as nat, |i: int| '.');
    assert(lower(trim_end_char(s, '.') + cut) =~= lower(trim_end_char(s, '.')) + cut);
    lemma_trim_end_char(s, '.');
    let t = trim_end_char(s, '.');
    lemma_lower_twice(t);
    if t.len() > 0 {
        assert(lower(t).last() == lower_char(t.last()));
    }
    lemma_trim_end_char_stays(lower(t), '.');
    lemma_trim_of_lower(s);
    assert(s.push('.').drop_last() =~= s);
}

proof fn lemma_trim_end_char(s: Seq<char>, c: char)
    ensures
        trim_end_char(s, c).len() == 0 || trim_end_char(s, c).last() != c,
    decreases s.len(),
{
    if s.len() > 0 && s.last() == c {
        lemma_trim_end_char(s.drop_last(), c);
    }
}

proof fn lemma_trim_end_char_stays(s: Seq<char>, c: char)
    requires
        s.len() == 0 || s.last() != c,
    ensures
        trim_end_char(s, c) == s,
{
}

proof fn lemma_lower_twice(s: Seq<char>)
    ensures
        lower(lower(s)) == lower(s),
{
    assert(lower(lower(s)) =~= lower(s));
}

proof fn lemma_trim_of_lower(s: Seq<char>)
    ensures
        lower(trim_end_char(lower(s), '.')) == lower(trim_end_char(s, '.')),
    decreases s.len(),
{
    if s.len() > 0 {
        assert(lower(s).last() == lower_char(s.last()));
        if s.last() == '.' {
            assert(lower(s).drop_last() =~= lower(s.drop_last()));
            lemma_trim_of_lower(s.drop_last());
        } else {
            lemma_lower_twice(s);
        }
    }
}

/// A set-up without the list of what meant nothing.
pub open spec fn settings(c: ConfigSpec) -> ConfigSpec {
    ConfigSpec { ignored: Seq::empty(), ..c }
}

/// True where a flag, and not the value of one, is read at the position `i` of the arguments.
pub open spec fn reads_flag_at(args: Seq<Seq<char>>, i: int) -> bool
    decreases args.len(),
{
    if i <= 0 || args.len() == 0 {
        i == 0
    } else if !takes_value(args[0]) {
        reads_flag_at(args.skip(1), i - 1)
    } else {
        args.len() >= 2 && reads_flag_at(args.skip(2), i - 2)
    }
}

/// An argument that means nothing, wherever a flag is read, leaves every setting as the other
/// arguments make it.
pub proof fn law_unknown_argument_changes_no_setting(
    c: ConfigSpec,
    unknown: Seq<char>,
    args: Seq<Seq<char>>,
    i: int,
)
    requires
        !takes_value(unknown),
        unknown != "--no-relay"@,
        unknown != "--print-address"@,
        0 <= i <= args.len(),
        reads_flag_at(args, i),
    ensures
        settings(configured(c, args.insert(i, unknown))) == settings(configured(c, args)),
    decreases args.len(),
{
    let more = args.insert(i, unknown);
    if i == 0 {
        assert(more[0] == unknown);
        assert(more.skip(1) =~= args);
        lemma_ignored_is_apart(with_flag(c, unknown), c, args);
    } else if !takes_value(args[0]) {
        assert(more[0] == args[0]);
        assert(more.skip(1) =~= args.skip(1).insert(i - 1, unknown));
        law_unknown_argument_changes_no_setting(
            with_flag(c, args[0]),
            unknown,
            args.skip(1),
            i - 1,
        );
    } else {
        assert(i >= 2) by {
            if i == 1 {
                assert(!reads_flag_at(args.skip(2), -1));
            }
        }
        assert(more[0] == args[0] && more[1] == args[1]);
        assert(more.skip(2) =~= args.skip(2).insert(i - 2, unknown));
        law_unknown_argument_changes_no_setting(
            with_value(c, args[0], Some(args[1])),
            unknown,
            args.skip(2),
            i - 2,
        );
    }
}

proof fn lemma_ignored_is_apart(a: ConfigSpec, b: ConfigSpec, args: Seq<Seq<char>>)
    requires
        settings(a) == settings(b),
    ensures
        settings(configured(a, args)) == settings(configured(b, args)),
    decreases args.len(),
{
    if args.len() > 0 {
        if !takes_value(args[0]) {
            lemma_ignored_is_apart(with_flag(a, args[0]), with_flag(b, args[0]), args.skip(1));
        } else if args.len() > 1 {
            let v = Some(args[1]);
            lemma_ignored_is_apart(
                with_value(a, args[0], v),
                with_value(b, args[0], v),
                args.skip(2),
            );
        }
    }
}

/// What a start comes to.
pub enum Startup {
    /// Print the address of the identity, and end.
    PrintAddress,
    /// Nothing to serve: no origin was given.
    MissingOrigin,
    /// No host to answer for: no domain was given.
    MissingDomain,
    Serve { origin: String, domain: String },
}

/// Decides what a start comes to. Asking for the address needs neither origin nor domain.
pub fn startup(config: &CliConfig) -> (r: Startup)
    ensures
        config.print_address ==> r is PrintAddress,
        !config.print_address && config.origin is None ==> r is MissingOrigin,
        !config.print_address && config.origin is Some && config.domain is None
            ==> r is MissingDomain,
        !config.print_address && config.origin is Some && config.domain is Some
            ==> (r matches Startup::Serve { origin, domain } && origin@ == config.origin->0@
            && domain@ == config.domain->0@),
{
    if config.print_address {
        return Startup::PrintAddress;
    }
    match &config.origin {
        None => Startup::MissingOrigin,
        Some(o) => match &config.domain {
            None => Startup::MissingDomain,
            Some(d) => Startup::Serve { origin: o.clone(), domain: d.clone() },
        },
    }
}

/// What a node is to its peers.
#[derive(Clone, Copy, PartialEq, Eq, Structural, Debug)]
pub enum NodeKind {
    /// It answers for a domain.
    Endpoint,
}

/// How the node of an endpoint is set up.
pub struct EndpointPlan {
    /// What the node is to its peers.
    pub kind: NodeKind,
    /// The origin, as requests are sent to it.
    pub origin: String,
    /// The one domain that is served.
    pub domain: String,
    /// The name that the node answers with.
    pub name: String,
    /// How many bundles of other nodes it carries.
    pub max_relayed: u32,
    /// The secret that replicas share, where they cluster.
    pub cluster_secret: Option<String>,
}

/// How the node of an endpoint is set up, as texts.
#[verifier::ext_equal]
pub struct PlanSpec {
    pub kind: NodeKind,
    pub origin: Seq<char>,
    pub domain: Seq<char>,
    pub name: Seq<char>,
    pub max_relayed: nat,
    pub cluster_secret: Option<Seq<char>>,
}

impl View for EndpointPlan {
    type V = PlanSpec;

    open spec fn view(&self) -> PlanSpec {
        PlanSpec {
            kind: self.kind,
            origin: self.origin@,
            domain: self.domain@,
            name: self.name@,
            max_relayed: self.max_relayed as nat,
            cluster_secret: opt_text(self.cluster_secret),
        }
    }
}

/// The plan for an endpoint: bound to one domain and named after it, a leaf that carries nothing
/// for others, and in a cluster only where a secret is set and not empty.
pub open spec fn planned(
    origin: Seq<char>,
    domain: Seq<char>,
    cluster_secret: Option<&str>,
) -> PlanSpec {
    PlanSpec {
        kind: NodeKind::Endpoint,
        origin: normal_origin(origin),
        domain: normal_host(domain),
        name: normal_host(domain),
        max_relayed: 0,
        cluster_secret: given(cluster_secret),
    }
}

/// Plans the node of an endpoint.
pub fn build_endpoint(origin: &str, domain: &str, cluster_secret: Option<&str>) -> (r: EndpointPlan)
    ensures
        r@ == planned(origin@, domain@, cluster_secret),
{
    let domain = normalize_host(domain);
    EndpointPlan {
        kind: NodeKind::Endpoint,
        origin: normalize_origin(origin),
        name: domain.clone(),
        domain,
        max_relayed: 0,
        cluster_secret: owned(cluster_secret),
    }
}

/// Planning takes nothing from an origin but slashes at its end, and from a domain but dots at its
/// end and its ASCII case; and planning from the origin and domain of a plan gives that plan again.
pub proof fn law_a_plan_is_its_own(
    origin: Seq<char>,
    domain: Seq<char>,
    cluster_secret: Option<&str>,
)
    ensures
        ({
            let plan = planned(origin, domain, cluster_secret);
            let dots = domain.len() - plan.domain.len();
            let slashes = origin.len() - plan.origin.len();
            &&& planned(plan.origin, plan.domain, cluster_secret) == plan
            &&& slashes >= 0
            &&& origin == plan.origin + Seq::new(slashes as nat, |i: int| '/')
            &&& plan.origin.len() == 0 || plan.origin.last() != '/'
            &&& dots >= 0
            &&& lower(domain) == plan.domain + Seq::new(dots as nat, |i: int| '.')
            &&& plan.domain.len() == 0 || plan.domain.last() != '.'
        }),
{
    law_origin_normal_form(origin);
    law_host_normal_form(domain);
    lemma_trim_end_char_cuts(origin, '/');
    lemma_trim_end_char_cuts(domain, '.');
    lemma_trim_end_char(domain, '.');
    let t = trim_end_char(domain, '.');
    let dots = (domain.len() - t.len()) as nat;
    let cut = Seq::new(dots, |i: int| '.');
    assert(lower(t + cut) =~= lower(t) + cut);
    if t.len() > 0 {
        assert(lower(t).last() == lower_char(t.last()));
    }
}

proof fn lemma_trim_end_char_cuts(s: Seq<char>, c: char)
    ensures
        trim_end_char(s, c).len() <= s.len(),
        s == trim_end_char(s, c) + Seq::new(
            (s.len() - trim_end_char(s, c).len()) as nat,
            |i: int| c,
        ),
    decreases s.len(),
{
    let t = trim_end_char(s, c);
    if s.len() > 0 && s.last() == c {
        lemma_trim_end_char_cuts(s.drop_last(), c);
        let less = Seq::new((s.len() - 1 - t.len()) as nat, |i: int| c);
        let more = Seq::new((s.len() - t.len()) as nat, |i: int| c);
        assert(less.push(c) =~= more);
        assert(s =~= s.drop_last().push(c));
        assert(s =~= t + more);
    } else {
        assert(s =~= t + Seq::new(0, |i: int| c));
    }
}

/// What an operator is told at the start.
pub open spec fn banner_lines(
    address: Seq<char>,
    domain: Seq<char>,
    origin: Seq<char>,
    listen: Seq<char>,
    clustered: bool,
) -> Seq<Seq<char>> {
    let lines = seq![
        "hop-endpoint: address "@ + address,
        "hop-endpoint: authorized domain "@ + domain + "  (rejects any other host)"@,
        "hop-endpoint: serving origin "@ + origin,
        "hop-endpoint: HNS reach record served at https://"@ + domain
            + "/.well-known/hop  (address "@ + address + ")"@,
        "hop-endpoint: listening on "@ + listen
            + " (ws = hops:// bearer, http = reverse-proxy to origin + /.well-known/hop)"@,
    ];
    if clustered {
        lines.push(
            "hop-endpoint: clustering ON (HOP_CLUSTER_SECRET set); replicas dedup shared work over the mesh"@,
        )
    } else {
        lines
    }
}

/// The lines that an operator is shown at the start.
pub fn startup_banner(address: &str, plan: &EndpointPlan, listen: &str) -> (r: Vec<String>)
    ensures
        texts(r@) == banner_lines(
            address@,
            plan.domain@,
            plan.origin@,
            listen@,
            plan.cluster_secret is Some,
        ),
{
    let mut r: Vec<String> = Vec::new();
    r.push(String::from_str("hop-endpoint: address ").concat(address));
    r.push(
        String::from_str("hop-endpoint: authorized domain ").concat(plan.domain.as_str()).concat(
            "  (rejects any other host)",
        ),
    );
    r.push(String::from_str("hop-endpoint: serving origin ").concat(plan.origin.as_str()));
    r.push(
        String::from_str("hop-endpoint: HNS reach record served at https://").concat(
            plan.domain.as_str(),
        ).concat("/.well-known/hop  (address ").concat(address).concat(")"),
    );
    r.push(
        String::from_str("hop-endpoint: listening on ").concat(listen).concat(
            " (ws = hops:// bearer, http = reverse-proxy to origin + /.well-known/hop)",
        ),
    );
    if plan.cluster_secret.is_some() {
        r.push(
            String::from_str(
                "hop-endpoint: clustering ON (HOP_CLUSTER_SECRET set); replicas dedup shared work over the mesh",
            ),
        );
    }
    assert(texts(r@) =~= banner_lines(
        address@,
        plan.domain@,
        plan.origin@,
        listen@,
        plan.cluster_secret is Some,
    ));
    r
}

/// Where the identity of an endpoint comes from.
pub enum IdentitySource {
    /// The seed that was kept: the address is the one of the last run.
    Seed([u8; 32]),
    /// A fresh seed, to be kept for the next run.
    FreshKept,
    /// A fresh seed that is lost at the end of the run.
    FreshLost,
}

/// The seed that was kept, if one was.
pub open spec fn kept_seed(has_path: bool, contents: Option<Seq<u8>>) -> Option<Seq<u8>> {
    if has_path && contents is Some && contents->0.len() == 32 {
        contents
    } else {
        None
    }
}

/// Decides where the identity comes from. `path` names the file of the seed, where there is one;
/// `contents` is what it holds, where it could be read. Only a file of exactly 32 bytes holds a
/// seed.
pub fn load_identity(path: Option<&str>, contents: Option<&[u8]>) -> (r: IdentitySource)
    ensures
        path is None ==> r is FreshLost,
        path is Some && contents is Some && contents->0@.len() == 32
            ==> (r matches IdentitySource::Seed(seed) && seed@ == contents->0@),
        path is Some && !(contents is Some && contents->0@.len() == 32) ==> r is FreshKept,
        ({
            let kept = kept_seed(
                path is Some,
                match contents {
                    Some(b) => Some(b@),
                    None => None,
                },
            );
            &&& r is Seed <==> kept is Some
            &&& r matches IdentitySource::Seed(seed) ==> seed@ == kept->0
        }),
{
    if path.is_none() {
        return IdentitySource::FreshLost;
    }
    match contents {
        Some(bytes) => {
            if bytes.len() != 32 {
                return IdentitySource::FreshKept;
            }
            let mut seed: [u8; 32] = [0u8; 32];
            let mut i: usize = 0;
            while i < 32
                invariant
                    i <= 32,
                    bytes@.len() == 32,
                    seed@.len() == 32,
                    forall|k: int| 0 <= k < i ==> seed@[k] == bytes@[k],
                decreases 32 - i,
            {
                seed[i] = bytes[i];
                i = i + 1;
            }
            assert(seed@ =~= bytes@);
            IdentitySource::Seed(seed)
        },
        None => IdentitySource::FreshKept,
    }
}

proof fn lemma_flags_differ()
    ensures
        "--listen"@.len() == 8 && "--listen"@[2] == 'l',
        "--origin"@.len() == 8 && "--origin"@[2] == 'o',
        "--domain"@.len() == 8 && "--domain"@[2] == 'd',
        "--identity-file"@.len() == 15 && "--identity-file"@[2] == 'i',
        "--max-resp"@.len() == 10 && "--max-resp"@[2] == 'm',
        "--relay"@.len() == 7,
        "--no-relay"@.len() == 10 && "--no-relay"@[2] == 'n',
        "--print-address"@.len() == 15 && "--print-address"@[2] == 'p',
{
    reveal_strlit("--listen");
    reveal_strlit("--origin");
    reveal_strlit("--domain");
    reveal_strlit("--identity-file");
    reveal_strlit("--max-resp");
    reveal_strlit("--relay");
    reveal_strlit("--no-relay");
    reveal_strlit("--print-address");
}

proof fn lemma_one_more_flag(
    c: ConfigSpec,
    args: Seq<Seq<char>>,
    flag: Seq<char>,
    value: Option<Seq<char>>,
)
    requires
        reads_flag_at(args, args.len() as int),
        value is Some ==> takes_value(flag),
    ensures
        ({
            let before = configured(c, args);
            let after = configured(
                c,
                if value is Some {
                    args.push(flag).push(value->0)
                } else {
                    args.push(flag)
                },
            );
            after == if takes_value(flag) {
                with_value(before, flag, value)
            } else {
                with_flag(before, flag)
            }
        }),
    decreases args.len(),
{
    let all = if value is Some {
        args.push(flag).push(value->0)
    } else {
        args.push(flag)
    };
    reveal_with_fuel(configured, 2);
    if args.len() == 0 {
        assert(all[0] == flag);
        if value is Some {
            assert(all[1] == value->0);
            assert(all.skip(2) =~= Seq::<Seq<char>>::empty());
        } else {
            assert(all.skip(1) =~= Seq::<Seq<char>>::empty());
        }
    } else if !takes_value(args[0]) {
        let t = args.skip(1);
        lemma_one_more_flag(with_flag(c, args[0]), t, flag, value);
        assert(all[0] == args[0]);
        if value is Some {
            assert(all.skip(1) =~= t.push(flag).push(value->0));
        } else {
            assert(all.skip(1) =~= t.push(flag));
        }
    } else {
        let t = args.skip(2);
        assert(args.len() >= 2);
        assert(all[0] == args[0] && all[1] == args[1]);
        lemma_one_more_flag(with_value(c, args[0], Some(args[1])), t, flag, value);
        if value is Some {
            assert(all.skip(2) =~= t.push(flag).push(value->0));
        } else {
            assert(all.skip(2) =~= t.push(flag));
        }
    }
}

/// Each flag with a value sets what it names, to that value, and nothing else; whatever the
/// arguments before it set. A cap that is no number sets nothing.
pub proof fn law_each_flag_sets_what_it_names(c: ConfigSpec, args: Seq<Seq<char>>, v: Seq<char>)
    requires
        reads_flag_at(args, args.len() as int),
    ensures
        ({
            let b = configured(c, args);
            let set = |flag: Seq<char>| configured(c, args.push(flag).push(v));
            &&& set("--listen"@) == ConfigSpec { listen: v, ..b }
            &&& set("--origin"@) == ConfigSpec { origin: Some(v), ..b }
            &&& set("--domain"@) == ConfigSpec { domain: Some(v), ..b }
            &&& set("--identity-file"@) == ConfigSpec { identity_file: Some(v), ..b }
            &&& set("--relay"@) == ConfigSpec { relay: Some(v), relay_cli_set: true, ..b }
            &&& u32_of(v) is Some ==> set("--max-resp"@) == (ConfigSpec {
                max_resp: u32_of(v)->0,
                ..b
            })
            &&& u32_of(v) is None ==> set("--max-resp"@) == b
        }),
{
    lemma_flags_differ();
    lemma_one_more_flag(c, args, "--listen"@, Some(v));
    lemma_one_more_flag(c, args, "--origin"@, Some(v));
    lemma_one_more_flag(c, args, "--domain"@, Some(v));
    lemma_one_more_flag(c, args, "--identity-file"@, Some(v));
    lemma_one_more_flag(c, args, "--relay"@, Some(v));
    lemma_one_more_flag(c, args, "--max-resp"@, Some(v));
}

/// A flag at the very end has no value: the address to listen on and the cap stay, and what the
/// others name is unset. The two flags without a value do what they say, and anything else is only
/// set aside.
pub proof fn law_a_flag_without_a_value(c: ConfigSpec, args: Seq<Seq<char>>, other: Seq<char>)
    requires
        reads_flag_at(args, args.len() as int),
        other != "--listen"@,
        other != "--origin"@,
        other != "--domain"@,
        other != "--identity-file"@,
        other != "--max-resp"@,
        other != "--relay"@,
        other != "--no-relay"@,
        other != "--print-address"@,
    ensures
        configured(c, Seq::empty()) == c,
        ({
            let b = configured(c, args);
            let set = |flag: Seq<char>| configured(c, args.push(flag));
            &&& set("--listen"@) == b
            &&& set("--max-resp"@) == b
            &&& set("--origin"@) == ConfigSpec { origin: None, ..b }
            &&& set("--domain"@) == ConfigSpec { domain: None, ..b }
            &&& set("--identity-file"@) == ConfigSpec { identity_file: None, ..b }
            &&& set("--relay"@) == ConfigSpec { relay: None, relay_cli_set: true, ..b }
            &&& set("--no-relay"@) == ConfigSpec { relay: None, relay_cli_set: true, ..b }
            &&& set("--print-address"@) == ConfigSpec { print_address: true, ..b }
            &&& set(other) == ConfigSpec { ignored: b.ignored.push(other), ..b }
        }),
{
    lemma_flags_differ();
    lemma_one_more_flag(c, args, "--listen"@, None);
    lemma_one_more_flag(c, args, "--origin"@, None);
    lemma_one_more_flag(c, args, "--domain"@, None);
    lemma_one_more_flag(c, args, "--identity-file"@, None);
    lemma_one_more_flag(c, args, "--relay"@, None);
    lemma_one_more_flag(c, args, "--max-resp"@, None);
    lemma_one_more_flag(c, args, "--no-relay"@, None);
    lemma_one_more_flag(c, args, "--print-address"@, None);
    lemma_one_more_flag(c, args, other, None);
}

/// Without flags the endpoint listens on the port that the environment names, or on the usual one,
/// serves the domain and takes the identity that it names, and joins the usual relay; a name that
/// is empty counts as none.
pub proof fn law_environment_fills_the_defaults(
    port: Option<&str>,
    domain: Option<&str>,
    identity_file: Option<&str>,
)
    ensures
        ({
            let d = defaults(port, domain, identity_file);
            &&& port is Some && port->0@.len() > 0 ==> d.listen == "0.0.0.0:"@ + port->0@
            &&& port is None || port->0@.len() == 0 ==> d.listen == "0.0.0.0:9444"@
            &&& domain is Some && domain->0@.len() > 0 ==> d.domain == Some(domain->0@)
            &&& domain is None || domain->0@.len() == 0 ==> d.domain is None
            &&& identity_file is Some && identity_file->0@.len() > 0 ==> d.identity_file == Some(
                identity_file->0@,
            )
            &&& identity_file is None || identity_file->0@.len() == 0 ==> d.identity_file is None
            &&& d.origin is None
            &&& d.max_resp == 8_388_608
            &&& !d.print_address
            &&& d.relay == Some("wss://relay.hopme.sh/"@)
            &&& !d.relay_cli_set
            &&& d.ignored.len() == 0
        }),
{
}

/// The words that turn the relay off are these three.
pub proof fn law_three_words_mean_no_relay(s: Option<&str>)
    ensures
        means_no_relay(s) <==> s is Some && (s->0@ == "1"@ || s->0@ == "true"@ || s->0@ == "yes"@),
{
}

/// A plan holds the origin without slashes at its end; the domain, and as the node's name too, in
/// small letters without dots at its end; a leaf that relays nothing; and a secret only where one
/// is given that is not empty.
pub proof fn law_a_plan_holds_what_was_given(
    origin: Seq<char>,
    slashes: nat,
    domain: Seq<char>,
    dots: nat,
    secret: Option<&str>,
)
    requires
        origin.len() > 0 ==> origin.last() != '/',
        domain.len() > 0 ==> domain.last() != '.',
    ensures
        ({
            let plan = planned(
                origin + Seq::new(slashes, |i: int| '/'),
                domain + Seq::new(dots, |i: int| '.'),
                secret,
            );
            &&& plan.kind is Endpoint
            &&& plan.origin == origin
            &&& plan.domain == lower(domain)
            &&& plan.name == lower(domain)
            &&& plan.max_relayed == 0
            &&& secret is Some && secret->0@.len() > 0 ==> plan.cluster_secret == Some(secret->0@)
            &&& secret is None || secret->0@.len() == 0 ==> plan.cluster_secret is None
        }),
{
    law_trim_end_char_cuts_the_run(origin, '/', slashes);
    law_trim_end_char_cuts_the_run(domain, '.', dots);
}

/// Nothing of a set-up or of a plan is hidden from what is said of it.
pub proof fn law_config_is_seen_whole(c: CliConfig, p: EndpointPlan, v: Seq<String>, i: int)
    ensures
        c@.listen == c.listen@,
        c@.origin == opt_text(c.origin),
        c@.domain == opt_text(c.domain),
        c@.identity_file == opt_text(c.identity_file),
        c@.max_resp == c.max_resp,
        c@.print_address == c.print_address,
        c@.relay == opt_text(c.relay),
        c@.relay_cli_set == c.relay_cli_set,
        c@.ignored == texts(c.ignored@),
        p@.kind == p.kind,
        p@.origin == p.origin@,
        p@.domain == p.domain@,
        p@.name == p.name@,
        p@.max_relayed == p.max_relayed,
        p@.cluster_secret == opt_text(p.cluster_secret),
        texts(v).len() == v.len(),
        0 <= i < v.len() ==> texts(v)[i] == v[i]@,
        opt_text(None) is None,
        0 <= i < v.len() ==> opt_text(Some(v[i])) == Some(v[i]@),
{
}

/// A text of the environment counts where it is there and not empty, as it is.
pub proof fn law_only_a_text_is_given(s: &str)
    ensures
        s@.len() > 0 ==> given(Some(s)) == Some(s@),
        s@.len() == 0 ==> given(Some(s)) is None,
        given(None) is None,
{
}

/// The operator is shown the address, the domain, the origin, where the record is served and where
/// the endpoint listens, each as it is; and that replicas cluster, where they do.
pub proof fn law_banner_names_what_is_served(
    address: Seq<char>,
    domain: Seq<char>,
    origin: Seq<char>,
    listen: Seq<char>,
    clustered: bool,
)
    ensures
        ({
            let b = banner_lines(address, domain, origin, listen, clustered);
            &&& b.len() == if clustered {
                6nat
            } else {
                5
            }
            &&& b[0] == "hop-endpoint: address "@ + address
            &&& b[1] == "hop-endpoint: authorized domain "@ + domain
                + "  (rejects any other host)"@
            &&& b[2] == "hop-endpoint: serving origin "@ + origin
            &&& b[3] == "hop-endpoint: HNS reach record served at https://"@ + domain
                + "/.well-known/hop  (address "@ + address + ")"@
            &&& b[4] == "hop-endpoint: listening on "@ + listen
                + " (ws = hops:// bearer, http = reverse-proxy to origin + /.well-known/hop)"@
        }),
{
}

/// A flag decides on the relay whatever the environment says; without one, the environment can turn
/// the relay off, which beats a relay that it names; and with neither the relay stays what it was.
pub proof fn law_flag_then_off_then_named(
    relay: Option<Seq<char>>,
    env_no_relay: Option<&str>,
    env_relay: Option<&str>,
    other_no_relay: Option<&str>,
    other_relay: Option<&str>,
)
    ensures
        relay_joined(relay, true, env_no_relay, env_relay) == relay,
        relay_joined(relay, true, env_no_relay, env_relay) == relay_joined(
            relay,
            true,
            other_no_relay,
            other_relay,
        ),
        env_no_relay is Some && (env_no_relay->0@ == "1"@ || env_no_relay->0@ == "true"@
            || env_no_relay->0@ == "yes"@) ==> relay_joined(
            relay,
            false,
            env_no_relay,
            env_relay,
        ) is None,
        env_no_relay is None && env_relay is Some && env_relay->0@.len() > 0 ==> relay_joined(
            relay,
            false,
            env_no_relay,
            env_relay,
        ) == Some(env_relay->0@),
        env_no_relay is Some && env_no_relay->0@ != "1"@ && env_no_relay->0@ != "true"@
            && env_no_relay->0@ != "yes"@ ==> relay_joined(relay, false, env_no_relay, env_relay)
            == relay_joined(relay, false, None, env_relay),
        env_relay is None || env_relay->0@.len() == 0 ==> relay_joined(
            relay,
            false,
            None,
            env_relay,
        ) == relay,
{
}

/// The seed of an identity is what its file holds, where there is a file of exactly 32 bytes: so a
/// seed that was kept is found again, and nothing else is taken for one.
pub proof fn law_a_kept_seed_is_found_again(has_path: bool, contents: Option<Seq<u8>>)
    ensures
        has_path && contents is Some && contents->0.len() == 32 ==> kept_seed(has_path, contents)
            == contents,
        kept_seed(has_path, contents) is Some ==> has_path && contents is Some
            && contents->0.len() == 32,
{
}

} // verus!
