//! The command line: its flags and values, the settings they give, and the
//! help text.
//!
//! The loss limit is a real number: its values are handed back as text, in
//! the order they came, for the caller to read.
use vstd::prelude::*;

use crate::backend::opt_view;
use crate::hyper::eq_chars;
use crate::net::{parse_socket_addr, spec_parse_socket_addr, SocketAddr};
use crate::service::{default_config_view, strings_view, ConfigView, ServiceConfig};
use crate::text::{
    alphabetic, chars_of, is_alphabetic, is_whitespace, is_ws, parse_unsigned, parse_unsigned_chars,
    push_spaces, push_str, spaces, string_of, strip_leading, strip_leading_chars, trim, trim_chars,
};

verus! {

broadcast use vstd::seq_lib::group_seq_properties;

/// A key and its value, as text.
pub type PairView = (Seq<char>, Option<Seq<char>>);

/// Whether `s` is a flag: it begins with `-`.
pub open spec fn is_flag(s: Seq<char>) -> bool {
    s.len() > 0 && s[0] == '-'
}

/// The pairs that the tokens `t` give: each flag, without its dashes, with
/// the token after it as its value when that token is no flag; tokens that
/// are neither a flag nor a value are passed over.
pub open spec fn pairs_of(t: Seq<Seq<char>>) -> Seq<PairView>
    decreases t.len(),
{
    if t.len() == 0 {
        Seq::empty()
    } else if is_flag(t[0]) {
        if t.len() > 1 && !is_flag(t[1]) {
            seq![(strip_leading(t[0], '-'), Some(t[1]))] + pairs_of(t.skip(2))
        } else {
            seq![(strip_leading(t[0], '-'), None::<Seq<char>>)] + pairs_of(t.skip(1))
        }
    } else {
        pairs_of(t.skip(1))
    }
}

/// The tokens after the first (the program's name).
pub open spec fn after_first(t: Seq<Seq<char>>) -> Seq<Seq<char>> {
    if t.len() == 0 {
        Seq::empty()
    } else {
        t.skip(1)
    }
}

/// The pairs as text.
pub open spec fn pairs_view(v: Seq<(String, Option<String>)>) -> Seq<PairView> {
    v.map_values(|p: (String, Option<String>)| (p.0@, opt_view(p.1)))
}

/// Whether the text `s` begins with `-`.
fn is_flag_str(s: &String) -> (r: bool)
    ensures
        r == is_flag(s@),
{
    let cs = chars_of(s.as_str());
    cs.len() > 0 && cs[0] == '-'
}

impl Args {
    /// The key/value pairs of a command line whose first token is the program's
    /// name.
    pub fn parse_args_to_vec(args: &Vec<String>) -> (r: Vec<(String, Option<String>)>)
        ensures
            pairs_view(r@) == pairs_of(after_first(strings_view(args@))),
    {
        let ghost t = strings_view(args@);
        let mut r: Vec<(String, Option<String>)> = Vec::new();
        if args.len() == 0 {
            return r;
        }
        let mut i: usize = 1;
        while i < args.len()
            invariant
                1 <= i <= args.len(),
                t == strings_view(args@),
                pairs_view(r@) + pairs_of(t.skip(i as int)) == pairs_of(t.skip(1)),
            decreases args.len() - i,
        {
            let ghost rest = t.skip(i as int);
            let ghost r0 = r@;
            proof {
                assert(rest[0] == args@[i as int]@);
            }
            if is_flag_str(&args[i]) {
                let key = string_of(&strip_leading_chars(&chars_of(args[i].as_str()), '-'));
                if i + 1 < args.len() && !is_flag_str(&args[i + 1]) {
                    let v = args[i + 1].clone();
                    proof {
                        assert(rest[1] == args@[i + 1]@);
                        assert(rest.skip(2) =~= t.skip(i + 2));
                    }
                    r.push((key, Some(v)));
                    i = i + 2;
                } else {
                    proof {
                        assert(rest.skip(1) =~= t.skip(i + 1));
                    }
                    r.push((key, None));
                    i = i + 1;
                }
                proof {
                    assert(r@ =~= r0.push(r@.last()));
                    assert(pairs_view(r@) =~= pairs_view(r0).push(pairs_view(r@).last()));
                }
            } else {
                proof {
                    assert(rest.skip(1) =~= t.skip(i + 1));
                }
                i = i + 1;
            }
        }
        proof {
            assert(t.skip(i as int) =~= Seq::<Seq<char>>::empty());
        }
        r
    }
}

/// The command line's entry point.
pub struct Args;

/// `t` as a list item: none when it is empty.
pub open spec fn keep_item(t: Seq<char>) -> Seq<Seq<char>> {
    if t.len() == 0 {
        Seq::empty()
    } else {
        seq![t]
    }
}

/// The items of a comma-separated list whose current item so far is `cur`:
/// each item trimmed, empty ones dropped.
pub open spec fn items_from(s: Seq<char>, cur: Seq<char>) -> Seq<Seq<char>>
    decreases s.len(),
{
    if s.len() == 0 {
        keep_item(trim(cur))
    } else if s[0] == ',' {
        keep_item(trim(cur)) + items_from(s.drop_first(), Seq::empty())
    } else {
        items_from(s.drop_first(), cur.push(s[0]))
    }
}

/// The items of the comma-separated list `s`, trimmed, without empty ones.
pub open spec fn list_items(s: Seq<char>) -> Seq<Seq<char>> {
    items_from(s, Seq::empty())
}

/// Splits `s` at its commas, trims each item and drops the empty ones.
pub fn split_list(s: &String) -> (r: Vec<String>)
    ensures
        strings_view(r@) == list_items(s@),
{
    let cs = chars_of(s.as_str());
    let mut r: Vec<String> = Vec::new();
    let mut cur: Vec<char> = Vec::new();
    let mut i: usize = 0;
    while i < cs.len()
        invariant
            i <= cs.len(),
            cs@ == s@,
            strings_view(r@) + items_from(cs@.skip(i as int), cur@) == list_items(s@),
        decreases cs.len() - i,
    {
        let ghost rest = cs@.skip(i as int);
        proof {
            assert(rest[0] == cs@[i as int]);
            assert(rest.drop_first() =~= cs@.skip(i + 1));
        }
        if cs[i] == ',' {
            let t = trim_chars(&cur);
            if t.len() > 0 {
                let ghost r0 = r@;
                let item = string_of(&t);
                r.push(item);
                proof {
                    assert(r@ =~= r0.push(item));
                    assert(strings_view(r@) =~= strings_view(r0).push(item@));
                }
            }
            cur = Vec::new();
        } else {
            cur.push(cs[i]);
        }
        i = i + 1;
    }
    proof {
        assert(cs@.skip(i as int) =~= Seq::<char>::empty());
    }
    let t = trim_chars(&cur);
    if t.len() > 0 {
        let ghost r0 = r@;
        let item = string_of(&t);
        r.push(item);
        proof {
            assert(r@ =~= r0.push(item));
            assert(strings_view(r@) =~= strings_view(r0).push(item@));
        }
    }
    r
}

/// What a command line gives: the settings, and the loss limit's values as
/// text, in order.
pub struct ParsedArgs {
    pub config: ServiceConfig,
    pub tlr_values: Vec<String>,
}

/// A command line's result as values.
pub struct ArgsView {
    pub config: ConfigView,
    pub tlr_values: Seq<Seq<char>>,
}

impl ParsedArgs {
    pub open spec fn view(&self) -> ArgsView {
        ArgsView { config: self.config.view(), tlr_values: strings_view(self.tlr_values@) }
    }
}

/// `x` held to `lo..=hi`.
pub open spec fn clamp(x: nat, lo: nat, hi: nat) -> nat {
    if x < lo {
        lo
    } else if x > hi {
        hi
    } else {
        x
    }
}

/// The number that the value `v` gives, read as an unsigned number of at
/// most `max` and held to `lo..=hi`; `d` when there is no value or it does
/// not read.
pub open spec fn number_or(v: Option<Seq<char>>, max: nat, lo: nat, hi: nat, d: nat) -> nat {
    match v {
        Some(s) => match parse_unsigned(s, max) {
            Some(x) => clamp(x, lo, hi),
            None => d,
        },
        None => d,
    }
}

/// The socket address that the value `v` gives; `d` when there is no value
/// or it does not read.
pub open spec fn addr_or(v: Option<Seq<char>>, d: SocketAddr) -> SocketAddr {
    match v {
        Some(s) => match spec_parse_socket_addr(s) {
            Some(a) => a,
            None => d,
        },
        None => d,
    }
}

/// The text that the value `v` gives; `d` when there is none.
pub open spec fn text_or(v: Option<Seq<char>>, d: Seq<char>) -> Seq<char> {
    match v {
        Some(s) => s,
        None => d,
    }
}

/// One pair applied to the result so far; `None` for a key that is no
/// setting.
pub open spec fn apply_pair(a: ArgsView, k: Seq<char>, v: Option<Seq<char>>) -> Option<ArgsView> {
    let c = a.config;
    if k == "addr"@ || k == "a"@ {
        Some(ArgsView { config: ConfigView { listen_addr: addr_or(v, c.listen_addr), ..c }, ..a })
    } else if k == "api"@ {
        Some(ArgsView { config: ConfigView { api_addr: addr_or(v, c.api_addr), ..c }, ..a })
    } else if k == "colo"@ || k == "c"@ {
        Some(
            ArgsView {
                config: ConfigView {
                    colo: match v {
                        Some(s) => Some(list_items(s)),
                        None => None,
                    },
                    ..c
                },
                ..a
            },
        )
    } else if k == "dl"@ || k == "d"@ || k == "delay"@ {
        Some(
            ArgsView {
                config: ConfigView {
                    delay_limit: number_or(v, u64::MAX as nat, 1, 2000, c.delay_limit as nat) as u64,
                    ..c
                },
                ..a
            },
        )
    } else if k == "tlr"@ || k == "l"@ || k == "loss"@ {
        Some(
            ArgsView {
                tlr_values: match v {
                    Some(s) => a.tlr_values.push(s),
                    None => a.tlr_values,
                },
                ..a
            },
        )
    } else if k == "http"@ || k == "u"@ || k == "url"@ {
        Some(ArgsView { config: ConfigView { http: text_or(v, c.http), ..c }, ..a })
    } else if k == "ips"@ || k == "i"@ {
        Some(
            ArgsView {
                config: ConfigView {
                    ips: number_or(v, usize::MAX as nat, 1, 128, c.ips as nat) as usize,
                    ..c
                },
                ..a
            },
        )
    } else if k == "n"@ || k == "t"@ || k == "threads"@ {
        Some(
            ArgsView {
                config: ConfigView {
                    threads: number_or(v, usize::MAX as nat, 1, 1024, c.threads as nat) as usize,
                    ..c
                },
                ..a
            },
        )
    } else if k == "tp"@ || k == "tls-port"@ {
        Some(
            ArgsView {
                config: ConfigView {
                    tls_port: number_or(v, 65535, 1, 65535, c.tls_port as nat) as u16,
                    ..c
                },
                ..a
            },
        )
    } else if k == "p"@ || k == "P"@ || k == "http-port"@ {
        Some(
            ArgsView {
                config: ConfigView {
                    http_port: number_or(v, 65535, 1, 65535, c.http_port as nat) as u16,
                    ..c
                },
                ..a
            },
        )
    } else if k == "f"@ || k == "file"@ {
        Some(ArgsView { config: ConfigView { ip_file: text_or(v, c.ip_file), ..c }, ..a })
    } else {
        None
    }
}

/// The pairs applied in order; the first key that is no setting is the
/// error.
pub open spec fn apply_pairs(a: ArgsView, ps: Seq<PairView>) -> Result<ArgsView, Seq<char>>
    decreases ps.len(),
{
    if ps.len() == 0 {
        Ok(a)
    } else {
        match apply_pair(a, ps[0].0, ps[0].1) {
            Some(b) => apply_pairs(b, ps.skip(1)),
            None => Err(ps[0].0),
        }
    }
}

/// The default settings, and no loss limit given.
pub open spec fn initial_args() -> ArgsView {
    ArgsView { config: default_config_view(), tlr_values: Seq::empty() }
}

/// What the parameters `t` give, every token read as a parameter.
pub open spec fn parse_params_spec(t: Seq<Seq<char>>) -> Result<ArgsView, Seq<char>> {
    apply_pairs(initial_args(), pairs_of(t))
}

/// What the command line `t` (program name first) gives.
pub open spec fn parse_args_spec(t: Seq<Seq<char>>) -> Result<ArgsView, Seq<char>> {
    parse_params_spec(after_first(t))
}

/// A command line with no flag gives the default settings and no loss
/// limit.
pub proof fn law_no_flags_keep_defaults(t: Seq<Seq<char>>)
    requires
        t.len() <= 1,
    ensures
        parse_args_spec(t) == Ok::<ArgsView, Seq<char>>(initial_args()),
{
    assert(after_first(t) =~= Seq::<Seq<char>>::empty());
}

/// Whether `k` is the text `lit`.
fn key_is(k: &Vec<char>, lit: &str) -> (r: bool)
    ensures
        r == (k@ == lit@),
{
    eq_chars(k, &chars_of(lit))
}

/// The number that a value gives, as `number_or` says.
fn number_value(v: &Option<String>, max: u128, lo: u128, hi: u128, d: u128) -> (r: u128)
    requires
        9 <= max,
        lo <= hi <= max,
    ensures
        r as nat == number_or(opt_view(*v), max as nat, lo as nat, hi as nat, d as nat),
        r == d || lo <= r <= hi,
{
    match v {
        Some(s) => match parse_unsigned_chars(&chars_of(s.as_str()), max) {
            Some(x) => {
                if x < lo {
                    lo
                } else if x > hi {
                    hi
                } else {
                    x
                }
            },
            None => d,
        },
        None => d,
    }
}

/// The socket address that a value gives, as `addr_or` says.
fn addr_value(v: &Option<String>, d: SocketAddr) -> (r: SocketAddr)
    ensures
        r == addr_or(opt_view(*v), d),
{
    match v {
        Some(s) => match parse_socket_addr(s.as_str()) {
            Some(a) => a,
            None => d,
        },
        None => d,
    }
}

impl ParsedArgs {
    /// Applies one pair, as `apply_pair` says; `false` for a key that is no
    /// setting, which leaves the result as it was.
    pub fn apply(&mut self, k: &String, v: &Option<String>) -> (ok: bool)
        ensures
            match apply_pair(old(self).view(), k@, opt_view(*v)) {
                Some(b) => ok && final(self).view() == b,
                None => !ok && final(self).view() == old(self).view(),
            },
    {
        let kc = chars_of(k.as_str());
        if key_is(&kc, "addr") || key_is(&kc, "a") {
            self.config.listen_addr = addr_value(v, self.config.listen_addr);
        } else if key_is(&kc, "api") {
            self.config.api_addr = addr_value(v, self.config.api_addr);
        } else if key_is(&kc, "colo") || key_is(&kc, "c") {
            self.config.colo = match v {
                Some(s) => Some(split_list(s)),
                None => None,
            };
        } else if key_is(&kc, "dl") || key_is(&kc, "d") || key_is(&kc, "delay") {
            let x = number_value(v, u64::MAX as u128, 1, 2000, self.config.delay_limit as u128);
            self.config.delay_limit = x as u64;
        } else if key_is(&kc, "tlr") || key_is(&kc, "l") || key_is(&kc, "loss") {
            match v {
                Some(s) => {
                    let ghost t0 = self.tlr_values@;
                    let x = s.clone();
                    self.tlr_values.push(x);
                    proof {
                        assert(self.tlr_values@ =~= t0.push(x));
                        assert(strings_view(self.tlr_values@) =~= strings_view(t0).push(x@));
                    }
                },
                None => {},
            }
        } else if key_is(&kc, "http") || key_is(&kc, "u") || key_is(&kc, "url") {
            match v {
                Some(s) => {
                    self.config.http = s.clone();
                },
                None => {},
            }
        } else if key_is(&kc, "ips") || key_is(&kc, "i") {
            let x = number_value(v, usize::MAX as u128, 1, 128, self.config.ips as u128);
            self.config.ips = x as usize;
        } else if key_is(&kc, "n") || key_is(&kc, "t") || key_is(&kc, "threads") {
            let x = number_value(v, usize::MAX as u128, 1, 1024, self.config.threads as u128);
            self.config.threads = x as usize;
        } else if key_is(&kc, "tp") || key_is(&kc, "tls-port") {
            let x = number_value(v, 65535, 1, 65535, self.config.tls_port as u128);
            self.config.tls_port = x as u16;
        } else if key_is(&kc, "p") || key_is(&kc, "P") || key_is(&kc, "http-port") {
            let x = number_value(v, 65535, 1, 65535, self.config.http_port as u128);
            self.config.http_port = x as u16;
        } else if key_is(&kc, "f") || key_is(&kc, "file") {
            match v {
                Some(s) => {
                    self.config.ip_file = s.clone();
                },
                None => {},
            }
        } else {
            return false;
        }
        true
    }
}

impl Args {
    /// The settings that a command line gives, its first token being the
    /// program's name: `Err` with the first key that is no setting.
    pub fn parse_from_iter(args: &Vec<String>) -> (r: Result<ParsedArgs, String>)
        ensures
            match r {
                Ok(p) => parse_args_spec(strings_view(args@)) == Ok::<ArgsView, Seq<char>>(p.view()),
                Err(e) => parse_args_spec(strings_view(args@)) == Err::<ArgsView, Seq<char>>(e@),
            },
    {
        let pairs = Args::parse_args_to_vec(args);
        let ghost ps = pairs_view(pairs@);
        let mut p = ParsedArgs { config: ServiceConfig::default(), tlr_values: Vec::new() };
        proof {
            assert(p.view().tlr_values =~= Seq::<Seq<char>>::empty());
        }
        let mut i: usize = 0;
        while i < pairs.len()
            invariant
                i <= pairs.len(),
                ps == pairs_view(pairs@),
                ps == pairs_of(after_first(strings_view(args@))),
                apply_pairs(p.view(), ps.skip(i as int)) == parse_args_spec(strings_view(args@)),
            decreases pairs.len() - i,
        {
            let ghost rest = ps.skip(i as int);
            proof {
                assert(rest[0] == ps[i as int]);
                assert(rest.skip(1) =~= ps.skip(i + 1));
            }
            let ok = p.apply(&pairs[i].0, &pairs[i].1);
            if !ok {
                return Err(pairs[i].0.clone());
            }
            i = i + 1;
        }
        proof {
            assert(ps.skip(i as int) =~= Seq::<PairView>::empty());
        }
        Ok(p)
    }
}

/// The words of `s` whose current word so far is `cur`: the runs of
/// characters between whitespace.
pub open spec fn words_from(s: Seq<char>, cur: Seq<char>) -> Seq<Seq<char>>
    decreases s.len(),
{
    if s.len() == 0 {
        keep_item(cur)
    } else if is_ws(s[0]) {
        keep_item(cur) + words_from(s.drop_first(), Seq::empty())
    } else {
        words_from(s.drop_first(), cur.push(s[0]))
    }
}

/// The words of `s` (as `str::split_whitespace`).
pub open spec fn words(s: Seq<char>) -> Seq<Seq<char>> {
    words_from(s, Seq::empty())
}

/// Splits `line` into its words, as `words` says.
pub fn split_words(line: &str) -> (r: Vec<String>)
    ensures
        strings_view(r@) == words(line@),
{
    let cs = chars_of(line);
    let mut r: Vec<String> = Vec::new();
    let mut cur: Vec<char> = Vec::new();
    let mut i: usize = 0;
    while i < cs.len()
        invariant
            i <= cs.len(),
            cs@ == line@,
            strings_view(r@) + words_from(cs@.skip(i as int), cur@) == words(line@),
        decreases cs.len() - i,
    {
        let ghost rest = cs@.skip(i as int);
        proof {
            assert(rest[0] == cs@[i as int]);
            assert(rest.drop_first() =~= cs@.skip(i + 1));
        }
        if is_whitespace(cs[i]) {
            if cur.len() > 0 {
                let ghost r0 = r@;
                let item = string_of(&cur);
                r.push(item);
                proof {
                    assert(r@ =~= r0.push(item));
                    assert(strings_view(r@) =~= strings_view(r0).push(item@));
                }
            }
            cur = Vec::new();
        } else {
            cur.push(cs[i]);
        }
        i = i + 1;
    }
    proof {
        assert(cs@.skip(i as int) =~= Seq::<char>::empty());
    }
    if cur.len() > 0 {
        let ghost r0 = r@;
        let item = string_of(&cur);
        r.push(item);
        proof {
            assert(r@ =~= r0.push(item));
            assert(strings_view(r@) =~= strings_view(r0).push(item@));
        }
    }
    r
}

/// Whether the command line `t` asks for help: a token `-h` or `--help`.
pub open spec fn asks_help(t: Seq<Seq<char>>) -> bool {
    exists|i: int| 0 <= i < t.len() && (t[i] == "-h"@ || t[i] == "--help"@)
}

/// Whether a command line asks for help, as `asks_help` says.
pub fn wants_help(args: &Vec<String>) -> (r: bool)
    ensures
        r == asks_help(strings_view(args@)),
{
    let ghost t = strings_view(args@);
    let mut i: usize = 0;
    while i < args.len()
        invariant
            i <= args.len(),
            t == strings_view(args@),
            forall|j: int| 0 <= j < i ==> !(t[j] == "-h"@ || t[j] == "--help"@),
        decreases args.len() - i,
    {
        let cs = chars_of(args[i].as_str());
        proof {
            assert(t[i as int] == args@[i as int]@);
        }
        if key_is(&cs, "-h") || key_is(&cs, "--help") {
            return true;
        }
        i = i + 1;
    }
    false
}

/// What the program's command line asks for.
pub enum ArgsOutcome {
    /// No argument at all.
    NoArgs,
    /// Help was asked for.
    Help,
    /// A key that is no setting.
    Invalid(String),
    /// The settings.
    Config(ParsedArgs),
}

impl Args {
    /// What the program's command line asks for: nothing when it holds
    /// only the program's name, help when any token asks for it, else the
    /// settings or the first key that is no setting.
    pub fn parse_to_config(args: &Vec<String>) -> (r: ArgsOutcome)
        ensures
            match r {
                ArgsOutcome::NoArgs => args.len() == 1,
                ArgsOutcome::Help => args.len() != 1 && asks_help(strings_view(args@)),
                ArgsOutcome::Invalid(e) => args.len() != 1 && !asks_help(strings_view(args@))
                    && parse_args_spec(strings_view(args@)) == Err::<ArgsView, Seq<char>>(e@),
                ArgsOutcome::Config(p) => args.len() != 1 && !asks_help(strings_view(args@))
                    && parse_args_spec(strings_view(args@)) == Ok::<ArgsView, Seq<char>>(p.view()),
            },
    {
        if args.len() == 1 {
            return ArgsOutcome::NoArgs;
        }
        if wants_help(args) {
            return ArgsOutcome::Help;
        }
        match Args::parse_from_iter(args) {
            Ok(p) => ArgsOutcome::Config(p),
            Err(e) => ArgsOutcome::Invalid(e),
        }
    }

    /// The settings that the parameters typed on a line give, every word
    /// being a parameter: `None` for a blank line, `Err` with the first key
    /// that is no setting.
    pub fn parse_line_to_config(line: &str) -> (r: Option<Result<ParsedArgs, String>>)
        ensures
            match r {
                None => words(line@).len() == 0,
                Some(Ok(p)) => words(line@).len() > 0 && parse_params_spec(words(line@)) == Ok::<
                    ArgsView,
                    Seq<char>,
                >(p.view()),
                Some(Err(e)) => words(line@).len() > 0 && parse_params_spec(words(line@)) == Err::<
                    ArgsView,
                    Seq<char>,
                >(e@),
            },
    {
        let ws = split_words(line);
        if ws.len() == 0 {
            return None;
        }
        let mut argv: Vec<String> = Vec::new();
        argv.push(String::new());
        let mut i: usize = 0;
        while i < ws.len()
            invariant
                i <= ws.len(),
                argv.len() == i + 1,
                strings_view(argv@).skip(1) =~= strings_view(ws@).take(i as int),
            decreases ws.len() - i,
        {
            argv.push(ws[i].clone());
            proof {
                assert(strings_view(argv@).skip(1) =~= strings_view(ws@).take(i + 1));
            }
            i = i + 1;
        }
        proof {
            assert(strings_view(ws@).take(i as int) =~= strings_view(ws@));
            assert(after_first(strings_view(argv@)) =~= words(line@));
        }
        Some(Args::parse_from_iter(&argv))
    }
}

/// The display width of `s` read from an escape state: an escape sequence
/// runs from `ESC` to the first `m` or alphabetic character and takes no
/// room; other ASCII characters take one column, the rest two.
pub open spec fn width_from(s: Seq<char>, esc: bool) -> nat
    decreases s.len(),
{
    if s.len() == 0 {
        0
    } else if s[0] == '\x1b' {
        width_from(s.drop_first(), true)
    } else if esc {
        width_from(s.drop_first(), !(s[0] == 'm' || alphabetic(s[0])))
    } else {
        (if (s[0] as u32) < 128 {
            1nat
        } else {
            2nat
        }) + width_from(s.drop_first(), false)
    }
}

/// The display width of `s`.
pub open spec fn display_width(s: Seq<char>) -> nat {
    width_from(s, false)
}

/// The smaller of `a` and `b`.
pub open spec fn min_nat(a: nat, b: nat) -> nat {
    if a < b {
        a
    } else {
        b
    }
}

/// The display width of `s`, held to what a `usize` holds.
pub fn approximate_display_width(s: &str) -> (r: usize)
    ensures
        r as nat == min_nat(display_width(s@), usize::MAX as nat),
{
    let cs = chars_of(s);
    let mut width: usize = 0;
    let mut in_escape = false;
    let mut i: usize = 0;
    while i < cs.len()
        invariant
            i <= cs.len(),
            cs@ == s@,
            min_nat(width as nat + width_from(cs@.skip(i as int), in_escape), usize::MAX as nat)
                == min_nat(display_width(s@), usize::MAX as nat),
            width < usize::MAX ==> width + width_from(cs@.skip(i as int), in_escape) == display_width(s@),
            width == usize::MAX ==> display_width(s@) >= usize::MAX,
        decreases cs.len() - i,
    {
        let ghost rest = cs@.skip(i as int);
        proof {
            assert(rest[0] == cs@[i as int]);
            assert(rest.drop_first() =~= cs@.skip(i + 1));
        }
        let c = cs[i];
        if c == '\x1b' {
            in_escape = true;
        } else if in_escape {
            if c == 'm' || is_alphabetic(c) {
                in_escape = false;
            }
        } else {
            let w: usize = if (c as u32) < 128 {
                1
            } else {
                2
            };
            width = width.saturating_add(w);
        }
        i = i + 1;
    }
    proof {
        assert(cs@.skip(i as int) =~= Seq::<char>::empty());
    }
    width
}

/// One line of the help text: the flag in green, its description, its
/// default dimmed, each padded to its column (11, 45 and 15 columns).
pub open spec fn help_line(name: Seq<char>, desc: Seq<char>, default: Seq<char>) -> Seq<char> {
    let nc = "\x1b[32m"@ + name + "\x1b[0m"@;
    let dc = "\x1b[2m"@ + default + "\x1b[0m"@;
    " "@ + nc + spaces(11 - display_width(nc)) + desc + spaces(45 - display_width(desc)) + dc
        + spaces(15 - display_width(dc)) + "\n"@
}

/// `n - w`, or 0 when `w` is larger.
fn pad(n: usize, w: usize) -> (r: usize)
    ensures
        r == (if w < n {
            n - w
        } else {
            0
        }),
{
    n.saturating_sub(w)
}

/// One line of the help text, as `help_line` says.
pub fn format_help_line(name: &str, desc: &str, default: &str) -> (r: String)
    ensures
        r@ == help_line(name@, desc@, default@),
{
    let mut name_colored = String::new();
    push_str(&mut name_colored, "\x1b[32m");
    push_str(&mut name_colored, name);
    push_str(&mut name_colored, "\x1b[0m");
    let name_width = approximate_display_width(name_colored.as_str());
    let name_padding = pad(11, name_width);
    let desc_width = approximate_display_width(desc);
    let desc_padding = pad(45, desc_width);
    let mut default_colored = String::new();
    push_str(&mut default_colored, "\x1b[2m");
    push_str(&mut default_colored, default);
    push_str(&mut default_colored, "\x1b[0m");
    let default_width = approximate_display_width(default_colored.as_str());
    let default_padding = pad(15, default_width);
    let mut r = String::new();
    push_str(&mut r, " ");
    push_str(&mut r, name_colored.as_str());
    push_spaces(&mut r, name_padding);
    push_str(&mut r, desc);
    push_spaces(&mut r, desc_padding);
    push_str(&mut r, default_colored.as_str());
    push_spaces(&mut r, default_padding);
    push_str(&mut r, "\n");
    proof {
        assert(spaces(name_padding as int) =~= spaces(
            11 - display_width("\x1b[32m"@ + name@ + "\x1b[0m"@),
        ));
        assert(spaces(desc_padding as int) =~= spaces(45 - display_width(desc@)));
        assert(spaces(default_padding as int) =~= spaces(
            15 - display_width("\x1b[2m"@ + default@ + "\x1b[0m"@),
        ));
    }
    r
}

/// The help text's heading, with the blank line after it.
pub open spec fn help_heading() -> Seq<char> {
    "\x1b[1;35m参数说明\x1b[0m\n\n"@
}

/// The help text (what `print_help` prints): the heading, then one line
/// per setting.
pub open spec fn help_text_view() -> Seq<char> {
    help_heading() + help_line("-addr"@, "本地监听的 IP 和端口"@, "127.6.6.6:6"@) + help_line(
        "-api"@,
        "API 服务地址和端口，端口 0 自动分配"@,
        "127.0.0.1:0"@,
    ) + help_line("-colo"@, "筛选一个或多个数据中心，例如 HKG,LAX"@, "未指定"@) + help_line(
        "-dl"@,
        "有效连接的平均延迟上限（毫秒）"@,
        "500"@,
    ) + help_line("-tlr"@, "有效连接的平均丢包率上限"@, "0.1"@) + help_line(
        "-http"@,
        "测速地址"@,
        "http://cp.cloudflare.com/cdn-cgi/trace"@,
    ) + help_line("-ips"@, "目标负载 IP 数量"@, "10"@) + help_line(
        "-n"@,
        "延迟测速并发上限"@,
        "16"@,
    ) + help_line("-tp"@, "TLS 流量使用的端口号"@, "443"@) + help_line(
        "-p"@,
        "HTTP 流量使用的端口号"@,
        "80"@,
    ) + help_line("-f"@, "从文件读取 IP 或 CIDR"@, "ip.txt"@)
}

/// Appends one help line to `s`.
fn push_help_line(s: &mut String, name: &str, desc: &str, default: &str)
    ensures
        final(s)@ == old(s)@ + help_line(name@, desc@, default@),
{
    let line = format_help_line(name, desc, default);
    push_str(s, line.as_str());
}

/// The help text, as `help_text_view` says.
pub fn help_text() -> (r: String)
    ensures
        r@ == help_text_view(),
{
    let mut s = String::new();
    push_str(&mut s, "\x1b[1;35m参数说明\x1b[0m\n\n");
    push_help_line(&mut s, "-addr", "本地监听的 IP 和端口", "127.6.6.6:6");
    push_help_line(&mut s, "-api", "API 服务地址和端口，端口 0 自动分配", "127.0.0.1:0");
    push_help_line(&mut s, "-colo", "筛选一个或多个数据中心，例如 HKG,LAX", "未指定");
    push_help_line(&mut s, "-dl", "有效连接的平均延迟上限（毫秒）", "500");
    push_help_line(&mut s, "-tlr", "有效连接的平均丢包率上限", "0.1");
    push_help_line(&mut s, "-http", "测速地址", "http://cp.cloudflare.com/cdn-cgi/trace");
    push_help_line(&mut s, "-ips", "目标负载 IP 数量", "10");
    push_help_line(&mut s, "-n", "延迟测速并发上限", "16");
    push_help_line(&mut s, "-tp", "TLS 流量使用的端口号", "443");
    push_help_line(&mut s, "-p", "HTTP 流量使用的端口号", "80");
    push_help_line(&mut s, "-f", "从文件读取 IP 或 CIDR", "ip.txt");
    proof {
        assert(s@ =~= help_text_view());
    }
    s
}

} // verus!
