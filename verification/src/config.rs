use vstd::prelude::*;

use crate::text::{chars_eq, chars_of, lemma_parse_uint_bound, parse_uint, parse_uint_chars, string_views};

verus! {

broadcast use vstd::string::group_string_axioms;

/// How many samples the history keeps unless told otherwise.
pub const DEFAULT_HISTORY_SIZE: usize = 120;

/// Seconds between samples unless told otherwise.
pub const DEFAULT_INTERVAL_SECONDS: u64 = 5;

/// The port served unless told otherwise.
pub const DEFAULT_PORT: u16 = 8080;

/// The settings of the server; `H` is the address type that the host is
/// read into.
#[derive(Clone, Debug)]
pub struct Config<H> {
    pub host: H,
    pub port: u16,
    pub interval_seconds: u64,
    pub history_size: usize,
}

/// Where settings come from: the `CLOAKYNODE_*` environment variables, when
/// set to text, and the command line, program name first.
#[derive(Clone, Debug)]
pub struct ConfigSources {
    pub env_host: Option<String>,
    pub env_port: Option<String>,
    pub env_interval_seconds: Option<String>,
    pub env_history_size: Option<String>,
    pub args: Vec<String>,
}

/// The four options that take a value.
pub open spec fn is_flag(a: Seq<char>) -> bool {
    ||| a == "--host"@
    ||| a == "--port"@
    ||| a == "--interval-seconds"@
    ||| a == "--history-size"@
}

/// The values given to `flag` on a command line read left to right: each of
/// the four options takes the argument after it as its value, whatever that
/// argument is; other arguments are passed over; an option at the very end
/// has no value.
pub open spec fn flag_values(args: Seq<Seq<char>>, flag: Seq<char>) -> Seq<Seq<char>>
    decreases args.len(),
{
    if args.len() == 0 {
        seq![]
    } else if is_flag(args[0]) {
        if args.len() == 1 {
            seq![]
        } else if args[0] == flag {
            seq![args[1]] + flag_values(args.skip(2), flag)
        } else {
            flag_values(args.skip(2), flag)
        }
    } else {
        flag_values(args.drop_first(), flag)
    }
}

/// The command-line arguments after the program name.
pub open spec fn args_after_name(args: Seq<String>) -> Seq<Seq<char>> {
    if args.len() == 0 {
        seq![]
    } else {
        string_views(args).skip(1)
    }
}

/// The texts offered for one setting, earliest first: the environment
/// variable, then each value of `flag` after the program name.
pub open spec fn candidates(env: Option<String>, args: Seq<String>, flag: Seq<char>) -> Seq<
    Seq<char>,
> {
    let from_env = match env {
        Some(v) => seq![v@],
        None => seq![],
    };
    from_env + flag_values(args_after_name(args), flag)
}

/// The last of `cands` that is a decimal number of at most `max`, or
/// `default` when none is.
pub open spec fn last_valid(cands: Seq<Seq<char>>, max: int, default: int) -> int
    decreases cands.len(),
{
    if cands.len() == 0 {
        default
    } else {
        match parse_uint(cands.last(), max, 10) {
            Ok(v) => v,
            Err(_) => last_valid(cands.drop_last(), max, default),
        }
    }
}

/// The last address that was read, or `default` when none was.
pub open spec fn last_some<H>(parsed: Seq<Option<H>>, default: H) -> H
    decreases parsed.len(),
{
    if parsed.len() == 0 {
        default
    } else {
        match parsed.last() {
            Some(h) => h,
            None => last_some(parsed.drop_last(), default),
        }
    }
}

/// `v` kept within `lo` and `hi`.
pub open spec fn clamp_int(v: int, lo: int, hi: int) -> int {
    if v < lo {
        lo
    } else if v > hi {
        hi
    } else {
        v
    }
}

/// The settings that `sources` give, with `parsed_hosts` the addresses read
/// from the host candidates in order: each setting takes its last valid
/// candidate, or its default; the interval is then at least one second and
/// the history size between 12 and 1024.
pub open spec fn resolved<H>(sources: ConfigSources, parsed_hosts: Seq<Option<H>>, default_host: H) -> Config<H> {
    let args = sources.args@;
    Config {
        host: last_some(parsed_hosts, default_host),
        port: last_valid(
            candidates(sources.env_port, args, "--port"@),
            u16::MAX as int,
            DEFAULT_PORT as int,
        ) as u16,
        interval_seconds: (if last_valid(
            candidates(sources.env_interval_seconds, args, "--interval-seconds"@),
            u64::MAX as int,
            DEFAULT_INTERVAL_SECONDS as int,
        ) < 1 {
            1
        } else {
            last_valid(
                candidates(sources.env_interval_seconds, args, "--interval-seconds"@),
                u64::MAX as int,
                DEFAULT_INTERVAL_SECONDS as int,
            )
        }) as u64,
        history_size: clamp_int(
            last_valid(
                candidates(sources.env_history_size, args, "--history-size"@),
                usize::MAX as int,
                DEFAULT_HISTORY_SIZE as int,
            ),
            12,
            1024,
        ) as usize,
    }
}

/// Whether `a` is one of the four options that take a value, and which.
fn flag_matches(a: &String, flag: &str) -> (r: (bool, bool))
    ensures
        r.0 == is_flag(a@),
        r.1 == (a@ == flag@),
{
    let cs = chars_of(a.as_str());
    let is_host = chars_eq(&cs, &chars_of("--host"));
    let is_port = chars_eq(&cs, &chars_of("--port"));
    let is_interval = chars_eq(&cs, &chars_of("--interval-seconds"));
    let is_history = chars_eq(&cs, &chars_of("--history-size"));
    let same = chars_eq(&cs, &chars_of(flag));
    (is_host || is_port || is_interval || is_history, same)
}

/// The texts offered for one setting, earliest first.
fn setting_candidates(env: &Option<String>, args: &Vec<String>, flag: &str) -> (r: Vec<String>)
    ensures
        string_views(r@) == candidates(*env, args@, flag@),
{
    let mut out: Vec<String> = Vec::new();
    match env {
        Some(v) => {
            out.push(v.clone());
        },
        None => {},
    }
    assert(string_views(out@) =~= match *env {
        Some(v) => seq![v@],
        None => Seq::<Seq<char>>::empty(),
    });
    if args.len() == 0 {
        assert(string_views(out@) + Seq::<Seq<char>>::empty() =~= string_views(out@));
        return out;
    }
    let ghost all = string_views(args@).skip(1);
    let ghost from_env = string_views(out@);
    let mut i: usize = 1;
    assert(string_views(args@).skip(1) =~= all);
    assert(from_env + Seq::<Seq<char>>::empty() =~= from_env);
    while i < args.len()
        invariant
            1 <= i <= args.len(),
            all == string_views(args@).skip(1),
            from_env + flag_values(all, flag@) == string_views(out@) + flag_values(
                string_views(args@).skip(i as int),
                flag@,
            ),
        decreases args.len() - i,
    {
        let ghost rest = string_views(args@).skip(i as int);
        assert(rest[0] == args@[i as int]@);
        let (is_flag_arg, same) = flag_matches(&args[i], flag);
        if is_flag_arg {
            if i + 1 == args.len() {
                assert(flag_values(rest, flag@) =~= Seq::<Seq<char>>::empty());
                i = args.len();
                assert(string_views(args@).skip(i as int) =~= Seq::<Seq<char>>::empty());
            } else {
                assert(rest[1] == args@[i + 1]@);
                assert(rest.skip(2) =~= string_views(args@).skip(i + 2));
                let ghost before = string_views(out@);
                if same {
                    out.push(args[i + 1].clone());
                    assert(string_views(out@) =~= before.push(args@[i + 1]@));
                    assert(before + flag_values(rest, flag@) =~= string_views(out@) + flag_values(
                        rest.skip(2),
                        flag@,
                    ));
                }
                i = i + 2;
                if i == args.len() {
                    assert(string_views(args@).skip(i as int) =~= Seq::<Seq<char>>::empty());
                }
            }
        } else {
            assert(rest.drop_first() =~= string_views(args@).skip(i + 1));
            i = i + 1;
            if i == args.len() {
                assert(string_views(args@).skip(i as int) =~= Seq::<Seq<char>>::empty());
            }
        }
    }
    assert(flag_values(Seq::<Seq<char>>::empty(), flag@) =~= Seq::<Seq<char>>::empty());
    if i == args.len() {
        assert(string_views(args@).skip(i as int) =~= Seq::<Seq<char>>::empty());
    }
    assert(string_views(out@) + Seq::<Seq<char>>::empty() =~= string_views(out@));
    out
}

/// The last candidate that is a decimal number of at most `max`.
fn last_valid_exec(cands: &Vec<String>, max: u64, default: u64) -> (r: u64)
    requires
        default <= max,
    ensures
        r == last_valid(string_views(cands@), max as int, default as int),
        r <= max,
{
    let mut i = cands.len();
    assert(string_views(cands@).take(i as int) =~= string_views(cands@));
    while i > 0
        invariant
            i <= cands.len(),
            default <= max,
            last_valid(string_views(cands@), max as int, default as int) == last_valid(
                string_views(cands@).take(i as int),
                max as int,
                default as int,
            ),
        decreases i,
    {
        let ghost pre = string_views(cands@).take(i as int);
        assert(pre.last() == cands@[i - 1]@);
        assert(pre.drop_last() =~= string_views(cands@).take(i - 1));
        match parse_uint_chars(&chars_of(cands[i - 1].as_str()), max, 10) {
            Ok(v) => {
                return v;
            },
            Err(_) => {},
        }
        i = i - 1;
    }
    default
}

/// Reads the settings, with `parsed_hosts` the addresses read from
/// `host_candidates(sources)` in order (`None` where one is no address).
pub fn resolve_config<H>(sources: &ConfigSources, parsed_hosts: Vec<Option<H>>, default_host: H) -> (r: Config<H>)
    ensures
        r == resolved(*sources, parsed_hosts@, default_host),
        r.interval_seconds >= 1,
        12 <= r.history_size <= 1024,
{
    let port_cands = setting_candidates(&sources.env_port, &sources.args, "--port");
    let interval_cands = setting_candidates(
        &sources.env_interval_seconds,
        &sources.args,
        "--interval-seconds",
    );
    let history_cands = setting_candidates(
        &sources.env_history_size,
        &sources.args,
        "--history-size",
    );
    let port = last_valid_exec(&port_cands, u16::MAX as u64, DEFAULT_PORT as u64) as u16;
    let interval = last_valid_exec(&interval_cands, u64::MAX, DEFAULT_INTERVAL_SECONDS);
    let history = last_valid_exec(&history_cands, usize::MAX as u64, DEFAULT_HISTORY_SIZE as u64)
        as usize;
    let interval_seconds = if interval < 1 {
        1
    } else {
        interval
    };
    let history_size = if history < 12 {
        12
    } else if history > 1024 {
        1024
    } else {
        history
    };
    let mut host = default_host;
    let mut parsed = parsed_hosts;
    let ghost all = parsed@;
    loop
        invariant_except_break
            last_some(all, default_host) == last_some(parsed@, default_host),
            host == default_host,
        ensures
            host == last_some(all, default_host),
        decreases parsed@.len(),
    {
        let ghost before = parsed@;
        match parsed.pop() {
            None => {
                break;
            },
            Some(Some(h)) => {
                host = h;
                break;
            },
            Some(None) => {
                assert(parsed@ =~= before.drop_last());
            },
        }
    }
    Config { host, port, interval_seconds, history_size }
}

/// The texts offered for the host, earliest first; the caller reads each as
/// an address and passes the results to `resolve_config`.
pub fn host_candidates(sources: &ConfigSources) -> (r: Vec<String>)
    ensures
        string_views(r@) == candidates(sources.env_host, sources.args@, "--host"@),
{
    setting_candidates(&sources.env_host, &sources.args, "--host")
}


/// The value of a decimal text of at most `max`.
pub open spec fn value_of(t: Seq<char>, max: int) -> int {
    match parse_uint(t, max, 10) {
        Ok(v) => v,
        Err(_) => 0,
    }
}

/// A decimal text of at most `max`.
pub open spec fn valid(t: Seq<char>, max: int) -> bool {
    parse_uint(t, max, 10) is Ok
}

proof fn lemma_last_valid_skips_invalid(a: Seq<Seq<char>>, b: Seq<Seq<char>>, max: int, d: int)
    requires
        forall|k: int| 0 <= k < b.len() ==> !valid(#[trigger] b[k], max),
    ensures
        last_valid(a + b, max, d) == last_valid(a, max, d),
    decreases b.len(),
{
    if b.len() == 0 {
        assert(a + b =~= a);
    } else {
        let b2 = b.drop_last();
        assert forall|k: int| 0 <= k < b2.len() implies !valid(#[trigger] b2[k], max) by {
            assert(b2[k] == b[k]);
        }
        assert(!valid(b[b.len() - 1], max));
        assert((a + b).drop_last() =~= a + b2);
        assert((a + b).last() == b.last());
        lemma_last_valid_skips_invalid(a, b2, max, d);
    }
}

/// Which text a setting takes: the last valid value given on the command
/// line; else the environment value, when valid; else the default.
pub proof fn lemma_setting_choice(env: Option<String>, args: Seq<String>, flag: Seq<char>, max: int, d: int)
    ensures
        ({
            let fv = flag_values(args_after_name(args), flag);
            let r = last_valid(candidates(env, args, flag), max, d);
            &&& forall|i: int|
                0 <= i < fv.len() && valid(#[trigger] fv[i], max) && (forall|k: int|
                    i < k < fv.len() ==> !valid(#[trigger] fv[k], max)) ==> r == value_of(fv[i], max)
            &&& (forall|k: int| 0 <= k < fv.len() ==> !valid(#[trigger] fv[k], max)) ==> match env {
                Some(t) => if valid(t@, max) {
                    r == value_of(t@, max)
                } else {
                    r == d
                },
                None => r == d,
            }
        }),
{
    let fv = flag_values(args_after_name(args), flag);
    let e: Seq<Seq<char>> = match env {
        Some(t) => seq![t@],
        None => seq![],
    };
    assert(candidates(env, args, flag) == e + fv);
    assert forall|i: int|
        0 <= i < fv.len() && valid(#[trigger] fv[i], max) && (forall|k: int|
            i < k < fv.len() ==> !valid(#[trigger] fv[k], max)) implies last_valid(
        candidates(env, args, flag),
        max,
        d,
    ) == value_of(fv[i], max) by {
        let head = e + fv.take(i + 1);
        let tail = fv.skip(i + 1);
        assert(e + fv =~= head + tail);
        assert forall|k: int| 0 <= k < tail.len() implies !valid(#[trigger] tail[k], max) by {
            assert(tail[k] == fv[i + 1 + k]);
        }
        lemma_last_valid_skips_invalid(head, tail, max, d);
        assert(head.last() == fv[i]);
    }
    if forall|k: int| 0 <= k < fv.len() ==> !valid(#[trigger] fv[k], max) {
        lemma_last_valid_skips_invalid(e, fv, max, d);
        match env {
            Some(t) => {
                assert(e.last() == t@);
                assert(e.drop_last() =~= Seq::<Seq<char>>::empty());
                assert(last_valid(e.drop_last(), max, d) == d);
                assert(last_valid(e, max, d) == if valid(t@, max) {
                    value_of(t@, max)
                } else {
                    d
                });
            },
            None => {
                assert(last_valid(e, max, d) == d);
            },
        }
        assert(last_valid(e + fv, max, d) == last_valid(e, max, d));
    }
    assert(forall|i: int|
        0 <= i < fv.len() && valid(#[trigger] fv[i], max) && (forall|k: int|
            i < k < fv.len() ==> !valid(#[trigger] fv[k], max)) ==> last_valid(e + fv, max, d)
            == value_of(fv[i], max));
}

/// The port: the last valid `--port` value (a decimal of at most 65535);
/// without one, a valid `CLOAKYNODE_PORT`; else 8080.
pub proof fn lemma_port_choice<H>(sources: ConfigSources, parsed_hosts: Seq<Option<H>>, default_host: H)
    ensures
        ({
            let fv = flag_values(args_after_name(sources.args@), "--port"@);
            let port = resolved(sources, parsed_hosts, default_host).port as int;
            let max = u16::MAX as int;
            &&& forall|i: int|
                0 <= i < fv.len() && valid(#[trigger] fv[i], max) && (forall|k: int|
                    i < k < fv.len() ==> !valid(#[trigger] fv[k], max)) ==> port == value_of(fv[i], max)
            &&& (forall|k: int| 0 <= k < fv.len() ==> !valid(#[trigger] fv[k], max)) ==> match sources.env_port {
                Some(t) => if valid(t@, max) {
                    port == value_of(t@, max)
                } else {
                    port == DEFAULT_PORT
                },
                None => port == DEFAULT_PORT,
            }
        }),
{
    let max = u16::MAX as int;
    let cands = candidates(sources.env_port, sources.args@, "--port"@);
    lemma_setting_choice(sources.env_port, sources.args@, "--port"@, max, DEFAULT_PORT as int);
    lemma_last_valid_range(cands, max, DEFAULT_PORT as int);
}

/// The sampling interval: chosen as the port is (a decimal `u64`, default
/// 5 seconds), then raised to at least one second.
pub proof fn lemma_interval_choice<H>(sources: ConfigSources, parsed_hosts: Seq<Option<H>>, default_host: H)
    ensures
        ({
            let fv = flag_values(args_after_name(sources.args@), "--interval-seconds"@);
            let iv = resolved(sources, parsed_hosts, default_host).interval_seconds as int;
            let max = u64::MAX as int;
            let at_least_one = |v: int| if v < 1 {
                1
            } else {
                v
            };
            &&& forall|i: int|
                0 <= i < fv.len() && valid(#[trigger] fv[i], max) && (forall|k: int|
                    i < k < fv.len() ==> !valid(#[trigger] fv[k], max)) ==> iv == at_least_one(
                    value_of(fv[i], max),
                )
            &&& (forall|k: int| 0 <= k < fv.len() ==> !valid(#[trigger] fv[k], max)) ==> match sources.env_interval_seconds {
                Some(t) => if valid(t@, max) {
                    iv == at_least_one(value_of(t@, max))
                } else {
                    iv == DEFAULT_INTERVAL_SECONDS
                },
                None => iv == DEFAULT_INTERVAL_SECONDS,
            }
        }),
{
    let max = u64::MAX as int;
    let cands = candidates(sources.env_interval_seconds, sources.args@, "--interval-seconds"@);
    lemma_setting_choice(
        sources.env_interval_seconds,
        sources.args@,
        "--interval-seconds"@,
        max,
        DEFAULT_INTERVAL_SECONDS as int,
    );
    lemma_last_valid_range(cands, max, DEFAULT_INTERVAL_SECONDS as int);
}

/// The history size: chosen as the port is (a decimal `usize`, default
/// 120), then kept within 12 and 1024.
pub proof fn lemma_history_size_choice<H>(sources: ConfigSources, parsed_hosts: Seq<Option<H>>, default_host: H)
    ensures
        ({
            let fv = flag_values(args_after_name(sources.args@), "--history-size"@);
            let hs = resolved(sources, parsed_hosts, default_host).history_size as int;
            let max = usize::MAX as int;
            &&& forall|i: int|
                0 <= i < fv.len() && valid(#[trigger] fv[i], max) && (forall|k: int|
                    i < k < fv.len() ==> !valid(#[trigger] fv[k], max)) ==> hs == clamp_int(
                    value_of(fv[i], max),
                    12,
                    1024,
                )
            &&& (forall|k: int| 0 <= k < fv.len() ==> !valid(#[trigger] fv[k], max)) ==> match sources.env_history_size {
                Some(t) => if valid(t@, max) {
                    hs == clamp_int(value_of(t@, max), 12, 1024)
                } else {
                    hs == DEFAULT_HISTORY_SIZE
                },
                None => hs == DEFAULT_HISTORY_SIZE,
            }
        }),
{
    let max = usize::MAX as int;
    let cands = candidates(sources.env_history_size, sources.args@, "--history-size"@);
    lemma_setting_choice(
        sources.env_history_size,
        sources.args@,
        "--history-size"@,
        max,
        DEFAULT_HISTORY_SIZE as int,
    );
    lemma_last_valid_range(cands, max, DEFAULT_HISTORY_SIZE as int);
}

/// The host: the address read from the last host text that is one, else
/// the default.
pub proof fn lemma_host_choice<H>(sources: ConfigSources, parsed_hosts: Seq<Option<H>>, default_host: H)
    ensures
        forall|i: int|
            0 <= i < parsed_hosts.len() && (#[trigger] parsed_hosts[i] is Some) && (forall|k: int|
                i < k < parsed_hosts.len() ==> #[trigger] parsed_hosts[k] is None) ==> resolved(
                sources,
                parsed_hosts,
                default_host,
            ).host == parsed_hosts[i]->Some_0,
        (forall|k: int| 0 <= k < parsed_hosts.len() ==> #[trigger] parsed_hosts[k] is None) ==> resolved(
            sources,
            parsed_hosts,
            default_host,
        ).host == default_host,
{
    assert forall|i: int|
        0 <= i < parsed_hosts.len() && (#[trigger] parsed_hosts[i] is Some) && (forall|k: int|
            i < k < parsed_hosts.len() ==> #[trigger] parsed_hosts[k] is None) implies last_some(
        parsed_hosts,
        default_host,
    ) == parsed_hosts[i]->Some_0 by {
        lemma_last_some_at(parsed_hosts, default_host, i);
    }
    if forall|k: int| 0 <= k < parsed_hosts.len() ==> #[trigger] parsed_hosts[k] is None {
        lemma_last_some_none(parsed_hosts, default_host);
    }
}

proof fn lemma_last_some_at<H>(s: Seq<Option<H>>, d: H, i: int)
    requires
        0 <= i < s.len(),
        s[i] is Some,
        forall|k: int| i < k < s.len() ==> #[trigger] s[k] is None,
    ensures
        last_some(s, d) == s[i]->Some_0,
    decreases s.len(),
{
    if i < s.len() - 1 {
        let t = s.drop_last();
        assert(s.last() is None);
        assert forall|k: int| i < k < t.len() implies #[trigger] t[k] is None by {
            assert(t[k] == s[k]);
        }
        assert(t[i] == s[i]);
        lemma_last_some_at(t, d, i);
    }
}

proof fn lemma_last_some_none<H>(s: Seq<Option<H>>, d: H)
    requires
        forall|k: int| 0 <= k < s.len() ==> #[trigger] s[k] is None,
    ensures
        last_some(s, d) == d,
    decreases s.len(),
{
    if s.len() > 0 {
        let t = s.drop_last();
        assert(s.last() is None);
        assert forall|k: int| 0 <= k < t.len() implies #[trigger] t[k] is None by {
            assert(t[k] == s[k]);
        }
        lemma_last_some_none(t, d);
    }
}

proof fn lemma_last_valid_range(cands: Seq<Seq<char>>, max: int, d: int)
    requires
        0 <= d <= max,
    ensures
        0 <= last_valid(cands, max, d) <= max,
        forall|t: Seq<char>| #[trigger] valid(t, max) ==> 0 <= value_of(t, max) <= max,
    decreases cands.len(),
{
    assert forall|t: Seq<char>| #[trigger] valid(t, max) implies 0 <= value_of(t, max) <= max by {
        lemma_parse_uint_bound(t, max, 10);
    }
    if cands.len() > 0 {
        lemma_parse_uint_bound(cands.last(), max, 10);
        lemma_last_valid_range(cands.drop_last(), max, d);
    }
}

} // verus!
