//! The options of a command line, and how their values are read.

use vstd::prelude::*;
use vstd::string::StringExecFns;

use crate::collector::mos::Codec;
use crate::net::SocketAddr;
use crate::text::{
    contains, parse_radix, push_decimal, quote, same, strip_prefix, to_ascii_lowercase,
    trim_prefixes,
};

verus! {

broadcast use vstd::string::group_string_axioms;

/// What was given: the bare flags and the `--key value` pairs, in order.
pub struct OptionsView {
    pub flags: Seq<Seq<char>>,
    pub pairs: Seq<(Seq<char>, Seq<char>)>,
}

/// The options that take no value.
pub open spec fn is_flag(key: Seq<char>) -> bool {
    key == "json"@ || key == "tls"@ || key == "wireless"@ || key == "hop"@
}

/// The first value that `pairs` give for `key`.
pub open spec fn first_value(pairs: Seq<(Seq<char>, Seq<char>)>, key: Seq<char>) -> Option<
    Seq<char>,
>
    decreases pairs.len(),
{
    if pairs.len() == 0 {
        None
    } else {
        match first_value(pairs.drop_last(), key) {
            Some(v) => Some(v),
            None => if pairs.last().0 == key {
                Some(pairs.last().1)
            } else {
                None
            },
        }
    }
}

/// Every value that `pairs` give for `key`, in order.
pub open spec fn every_value(pairs: Seq<(Seq<char>, Seq<char>)>, key: Seq<char>) -> Seq<Seq<char>>
    decreases pairs.len(),
{
    if pairs.len() == 0 {
        Seq::empty()
    } else {
        let before = every_value(pairs.drop_last(), key);
        if pairs.last().0 == key {
            before.push(pairs.last().1)
        } else {
            before
        }
    }
}

impl OptionsView {
    pub open spec fn get(self, key: Seq<char>) -> Option<Seq<char>> {
        first_value(self.pairs, key)
    }

    pub open spec fn all(self, key: Seq<char>) -> Seq<Seq<char>> {
        every_value(self.pairs, key)
    }

    pub open spec fn has(self, flag: Seq<char>) -> bool {
        self.flags.contains(flag)
    }

    pub open spec fn get_or(self, key: Seq<char>, default: Seq<char>) -> Seq<char> {
        match self.get(key) {
            Some(v) => v,
            None => default,
        }
    }
}

pub open spec fn no_options() -> OptionsView {
    OptionsView { flags: Seq::empty(), pairs: Seq::empty() }
}

/// What `toks` add to `before`, or what is wrong with the first of them that
/// cannot be taken.
pub open spec fn scan(toks: Seq<Seq<char>>, before: OptionsView) -> Result<OptionsView, Seq<char>>
    decreases toks.len(),
{
    if toks.len() == 0 {
        Ok(before)
    } else if !crate::text::starts(toks[0], "--"@) {
        Err("unexpected argument "@ + crate::text::quoted(toks[0]))
    } else {
        let key = toks[0].skip(2);
        if is_flag(key) {
            scan(toks.skip(1), OptionsView { flags: before.flags.push(key), ..before })
        } else if toks.len() < 2 {
            Err("--"@ + key + " needs a value"@)
        } else {
            scan(toks.skip(2), OptionsView { pairs: before.pairs.push((key, toks[1])), ..before })
        }
    }
}

/// A message says what it should.
pub open spec fn says<T>(r: Result<T, String>, e: Seq<char>) -> bool {
    r matches Err(m) && m@ == e
}

pub struct Options {
    pub flags: Vec<String>,
    pub pairs: Vec<(String, String)>,
}

pub open spec fn pair_views(v: Seq<(String, String)>) -> Seq<(Seq<char>, Seq<char>)> {
    Seq::new(v.len(), |i: int| (v[i].0@, v[i].1@))
}

impl View for Options {
    type V = OptionsView;

    open spec fn view(&self) -> OptionsView {
        OptionsView { flags: crate::text::views(self.flags@), pairs: pair_views(self.pairs@) }
    }
}

proof fn lemma_first_value_stays(pairs: Seq<(Seq<char>, Seq<char>)>, key: Seq<char>, n: int)
    requires
        0 <= n <= pairs.len(),
        first_value(pairs.take(n), key) is Some,
    ensures
        first_value(pairs, key) == first_value(pairs.take(n), key),
    decreases pairs.len() - n,
{
    if n == pairs.len() {
        assert(pairs.take(n) =~= pairs);
    } else {
        assert(pairs.take(n + 1).drop_last() =~= pairs.take(n));
        lemma_first_value_stays(pairs, key, n + 1);
    }
}

impl Options {
    /// Collect `--key value` pairs plus bare flags from the arguments behind
    /// the first `from`.
    pub fn collect(args: &Vec<String>, from: usize) -> (r: Result<Options, String>)
        requires
            from <= args@.len(),
        ensures
            match scan(crate::text::views(args@).skip(from as int), no_options()) {
                Ok(o) => r matches Ok(x) && x@ == o,
                Err(e) => says(r, e),
            },
    {
        let mut out = Options { flags: Vec::new(), pairs: Vec::new() };
        let mut i: usize = from;
        let ghost all = crate::text::views(args@);
        let ghost goal = scan(all.skip(from as int), no_options());
        proof {
            reveal_strlit("--");
            assert(out@.flags =~= Seq::empty());
            assert(out@.pairs =~= Seq::empty());
        }
        while i < args.len()
            invariant
                from <= i <= args@.len(),
                all == crate::text::views(args@),
                goal == scan(all.skip(from as int), no_options()),
                goal == scan(all.skip(i as int), out@),
                "--"@.len() == 2,
            decreases args@.len() - i,
        {
            let ghost toks = all.skip(i as int);
            let ghost before = out@;
            proof {
                assert(toks[0] == args@[i as int]@);
            }
            let tok = args[i].as_str();
            let key = match strip_prefix(tok, "--") {
                Some(k) => k,
                None => {
                    let mut t = "unexpected argument ".to_owned();
                    let q = quote(tok);
                    t.append(q.as_str());
                    return Err(t);
                },
            };
            if same(key, "json") || same(key, "tls") || same(key, "wireless") || same(key, "hop") {
                out.flags.push(key.to_owned());
                proof {
                    assert(out@.flags =~= before.flags.push(key@));
                    assert(toks.skip(1) =~= all.skip(i + 1));
                }
                i = i + 1;
            } else {
                if i + 1 >= args.len() {
                    let mut t = "--".to_owned();
                    t.append(key);
                    t.append(" needs a value");
                    return Err(t);
                }
                proof {
                    assert(toks[1] == args@[i + 1]@);
                }
                out.pairs.push((key.to_owned(), args[i + 1].clone()));
                proof {
                    assert(out@.pairs =~= before.pairs.push((key@, toks[1])));
                    assert(toks.skip(2) =~= all.skip(i + 2));
                }
                i = i + 2;
            }
        }
        Ok(out)
    }

    pub fn get(&self, key: &str) -> (r: Option<&str>)
        ensures
            match r {
                Some(v) => self@.get(key@) == Some(v@),
                None => self@.get(key@) is None,
            },
    {
        let mut i: usize = 0;
        let ghost all = self@.pairs;
        proof {
            assert(all.take(0) =~= Seq::empty());
        }
        while i < self.pairs.len()
            invariant
                i <= self.pairs@.len(),
                all == pair_views(self.pairs@),
                first_value(all.take(i as int), key@) is None,
            decreases self.pairs@.len() - i,
        {
            proof {
                assert(all.take(i + 1).drop_last() =~= all.take(i as int));
                assert(all.take(i + 1).last() == all[i as int]);
            }
            if same(self.pairs[i].0.as_str(), key) {
                proof {
                    lemma_first_value_stays(all, key@, i + 1);
                }
                return Some(self.pairs[i].1.as_str());
            }
            i = i + 1;
        }
        proof {
            assert(all.take(i as int) =~= all);
        }
        None
    }

    pub fn all(&self, key: &str) -> (r: Vec<String>)
        ensures
            crate::text::views(r@) == self@.all(key@),
    {
        let mut out: Vec<String> = Vec::new();
        let mut i: usize = 0;
        let ghost all = self@.pairs;
        proof {
            assert(all.take(0) =~= Seq::empty());
            assert(crate::text::views(out@) =~= Seq::empty());
        }
        while i < self.pairs.len()
            invariant
                i <= self.pairs@.len(),
                all == pair_views(self.pairs@),
                crate::text::views(out@) == every_value(all.take(i as int), key@),
            decreases self.pairs@.len() - i,
        {
            broadcast use crate::text::lemma_views_push;

            proof {
                assert(all.take(i + 1).drop_last() =~= all.take(i as int));
                assert(all.take(i + 1).last() == all[i as int]);
            }
            if same(self.pairs[i].0.as_str(), key) {
                out.push(self.pairs[i].1.clone());
            }
            i = i + 1;
        }
        proof {
            assert(all.take(i as int) =~= all);
        }
        out
    }

    pub fn has(&self, flag: &str) -> (r: bool)
        ensures
            r == self@.has(flag@),
    {
        let mut i: usize = 0;
        while i < self.flags.len()
            invariant
                i <= self.flags@.len(),
                forall|k: int| 0 <= k < i ==> #[trigger] self.flags@[k]@ != flag@,
            decreases self.flags@.len() - i,
        {
            if same(self.flags[i].as_str(), flag) {
                proof {
                    assert(self@.flags[i as int] == flag@);
                }
                return true;
            }
            i = i + 1;
        }
        proof {
            if self@.has(flag@) {
                let k = choose|k: int| 0 <= k < self@.flags.len() && self@.flags[k] == flag@;
                assert(self.flags@[k]@ == flag@);
            }
        }
        false
    }

    pub fn get_or(&self, key: &str, default: &str) -> (r: String)
        ensures
            r@ == self@.get_or(key@, default@),
    {
        match self.get(key) {
            Some(v) => v.to_owned(),
            None => default.to_owned(),
        }
    }
}

/// What an optional text says.
pub open spec fn told(v: Option<&str>) -> Option<Seq<char>> {
    match v {
        Some(s) => Some(s@),
        None => None,
    }
}

/// The number that `v` gives, up to `max`; `default` where it is absent.
pub open spec fn number(v: Option<Seq<char>>, max: nat, default: nat, name: Seq<char>) -> Result<
    nat,
    Seq<char>,
> {
    match v {
        Some(s) => match crate::text::unsigned(s, 10, max) {
            Some(n) => Ok(n),
            None => Err("--"@ + name + " "@ + crate::text::quoted(s) + " is not a number"@),
        },
        None => Ok(default),
    }
}

pub fn num(v: Option<&str>, max: u64, default: u64, name: &str) -> (r: Result<u64, String>)
    ensures
        match number(told(v), max as nat, default as nat, name@) {
            Ok(n) => r matches Ok(x) && x == n && (default <= max ==> x <= max),
            Err(e) => says(r, e),
        },
{
    match v {
        Some(s) => match parse_radix(s, 10, max) {
            Some(n) => Ok(n),
            None => {
                let mut t = "--".to_owned();
                t.append(name);
                t.append(" ");
                let q = quote(s);
                t.append(q.as_str());
                t.append(" is not a number");
                Err(t)
            },
        },
        None => Ok(default),
    }
}

/// The session that hexadecimal digits name, with or without `0x` before them.
/// Session IDs are hex, to match how they appear in logs and on the wire.
pub open spec fn hex_session(s: Seq<char>) -> Option<nat> {
    crate::text::unsigned(crate::text::without_prefixes(s, "0x"@), 16, u64::MAX as nat)
}

pub fn parse_session(s: &str) -> (r: Option<u64>)
    ensures
        match r {
            Some(n) => hex_session(s@) == Some(n as nat),
            None => hex_session(s@) is None,
        },
{
    proof {
        reveal_strlit("0x");
    }
    parse_radix(trim_prefixes(s, "0x"), 16, u64::MAX)
}

/// The session that `--session` names; session 1 where it is absent.
pub open spec fn session(v: Option<Seq<char>>) -> Result<u64, Seq<char>> {
    match v {
        None => Ok(1),
        Some(s) => match hex_session(s) {
            Some(n) => Ok(n as u64),
            None => Err("--session "@ + crate::text::quoted(s) + " is not hexadecimal"@),
        },
    }
}

pub fn session_id(v: Option<&str>) -> (r: Result<u64, String>)
    ensures
        match session(told(v)) {
            Ok(n) => r matches Ok(x) && x == n,
            Err(e) => says(r, e),
        },
{
    match v {
        None => Ok(1),
        Some(s) => match parse_session(s) {
            Some(n) => Ok(n),
            None => {
                let mut t = "--session ".to_owned();
                let q = quote(s);
                t.append(q.as_str());
                t.append(" is not hexadecimal");
                Err(t)
            },
        },
    }
}

/// The codec that `v` names; G.711 where it is absent.
pub open spec fn chosen_codec(v: Option<Seq<char>>) -> Result<Codec, Seq<char>> {
    let name = match v {
        Some(s) => s,
        None => "g711"@,
    };
    match crate::collector::mos::codec_named(name) {
        Some(c) => Ok(c),
        None => Err("unknown codec "@ + crate::text::quoted(crate::text::lowered(name))),
    }
}

pub fn codec(v: Option<&str>) -> (r: Result<Codec, String>)
    ensures
        match chosen_codec(told(v)) {
            Ok(c) => r matches Ok(x) && x == c,
            Err(e) => says(r, e),
        },
{
    let name = match v {
        Some(s) => s,
        None => "g711",
    };
    match Codec::parse(name) {
        Some(c) => Ok(c),
        None => {
            let mut t = "unknown codec ".to_owned();
            let low = to_ascii_lowercase(name);
            let q = quote(low.as_str());
            t.append(q.as_str());
            Err(t)
        },
    }
}

/// The endpoint that `text` names. A bare address gets the default port, since
/// the port is the same on both ends in every normal deployment.
pub open spec fn target(label: Seq<char>, text: Seq<char>, port: nat) -> Result<
    SocketAddr,
    Seq<char>,
> {
    if crate::text::has(text, ":"@) {
        match crate::net::endpoint(text) {
            Some(a) => Ok(a),
            None => Err(label + " "@ + crate::text::quoted(text) + " is not addr:port"@),
        }
    } else {
        match crate::net::endpoint(text + ":"@ + crate::text::decimal(port)) {
            Some(a) => Ok(a),
            None => Err(label + " "@ + crate::text::quoted(text) + " is not an IP"@),
        }
    }
}

pub fn parse_target(label: &str, text: &str, port: u16) -> (r: Result<SocketAddr, String>)
    ensures
        match target(label@, text@, port as nat) {
            Ok(a) => r matches Ok(x) && x == a,
            Err(e) => says(r, e),
        },
{
    if contains(text, ":") {
        match SocketAddr::parse(text) {
            Some(a) => Ok(a),
            None => Err(complaint(label, text, " is not addr:port")),
        }
    } else {
        let mut full = text.to_owned();
        full.append(":");
        push_decimal(&mut full, port as u128);
        match SocketAddr::parse(full.as_str()) {
            Some(a) => Ok(a),
            None => Err(complaint(label, text, " is not an IP")),
        }
    }
}

/// A complaint about a value: what it is for, the value, what it is not.
pub fn complaint(label: &str, value: &str, what: &str) -> (r: String)
    ensures
        r@ == label@ + " "@ + crate::text::quoted(value@) + what@,
{
    let mut t = label.to_owned();
    t.append(" ");
    let q = quote(value);
    t.append(q.as_str());
    t.append(what);
    t
}

/// The DSCP that `text` names. It is a field of six bits.
pub open spec fn code_point(label: Seq<char>, shown: Seq<char>, text: Seq<char>) -> Result<
    u8,
    Seq<char>,
> {
    match crate::text::unsigned(text, 10, u8::MAX as nat) {
        None => Err(label + " "@ + crate::text::quoted(shown) + " is not a number"@),
        Some(v) => if v > 63 {
            Err(label + " "@ + crate::text::decimal(v) + " is out of range (0-63)"@)
        } else {
            Ok(v as u8)
        },
    }
}

/// Read a DSCP from `text`. A complaint quotes it as `shown`.
pub fn parse_code_point(label: &str, shown: &str, text: &str) -> (r: Result<u8, String>)
    ensures
        match code_point(label@, shown@, text@) {
            Ok(v) => r matches Ok(x) && x == v,
            Err(e) => says(r, e),
        },
{
    match parse_radix(text, 10, 255) {
        None => Err(complaint(label, shown, " is not a number")),
        Some(v) => if v > 63 {
            let mut t = label.to_owned();
            t.append(" ");
            push_decimal(&mut t, v as u128);
            t.append(" is out of range (0-63)");
            Err(t)
        } else {
            Ok(v as u8)
        },
    }
}

/// A value given twice counts as it was given first.
pub proof fn law_the_first_value_counts(
    o: OptionsView,
    key: Seq<char>,
    value: Seq<char>,
)
    ensures
        o.get(key) is Some ==> (OptionsView { pairs: o.pairs.push((key, value)), ..o }).get(key)
            == o.get(key),
        o.get(key) is None ==> (OptionsView { pairs: o.pairs.push((key, value)), ..o }).get(key)
            == Some(value),
{
    let p = o.pairs.push((key, value));
    assert(p.drop_last() =~= o.pairs);
}

} // verus!
