use vstd::prelude::*;
use vstd::std_specs::iter::IteratorSpec;

verus! {

broadcast use vstd::string::axiom_spec_iter, vstd::string::next_postcondition;

/// The port a node listens on when none is given.
pub const DEFAULT_PORT: u16 = 8080;

/// What a node's command line asks for.
#[derive(Debug, Clone, PartialEq, Eq)]
pub struct CliOptions {
    /// The application the worker loads; empty where none was given.
    pub target: String,
    pub port: u16,
}

/// The characters of `s`.
pub fn chars_of(s: &String) -> (r: Vec<char>)
    ensures
        r@ == s@,
{
    let mut it = s.as_str().chars();
    let mut out: Vec<char> = Vec::new();
    loop
        invariant
            it.obeys_prophetic_iter_laws(),
            out@ + it.remaining() == s@,
        ensures
            out@ == s@,
        decreases s@.len() - out@.len(),
    {
        match it.next() {
            Some(c) => {
                out.push(c);
            },
            None => {
                break ;
            },
        }
    }
    out
}

/// The value of the decimal digit `c`.
pub open spec fn digit_value(c: char) -> int {
    c as int - '0' as int
}

pub open spec fn is_digit(c: char) -> bool {
    '0' <= c <= '9'
}

/// The number that the decimal digits `ds` write.
pub open spec fn decimal_value(ds: Seq<char>) -> int
    decreases ds.len(),
{
    if ds.len() == 0 {
        0
    } else {
        10 * decimal_value(ds.drop_last()) + digit_value(ds.last())
    }
}

/// The digits of a port number as written: all after an optional `+`.
pub open spec fn port_digits(s: Seq<char>) -> Seq<char> {
    if s.len() > 0 && s[0] == '+' {
        s.skip(1)
    } else {
        s
    }
}

/// The port that `s` writes in decimal, where it writes one.
pub open spec fn port_of(s: Seq<char>) -> Option<u16> {
    let ds = port_digits(s);
    if ds.len() > 0 && (forall|i: int| 0 <= i < ds.len() ==> is_digit(#[trigger] ds[i]))
        && decimal_value(ds) <= u16::MAX {
        Some(decimal_value(ds) as u16)
    } else {
        None
    }
}

proof fn lemma_decimal_nonneg(ds: Seq<char>)
    requires
        forall|i: int| 0 <= i < ds.len() ==> is_digit(#[trigger] ds[i]),
    ensures
        decimal_value(ds) >= 0,
    decreases ds.len(),
{
    if ds.len() > 0 {
        assert forall|i: int| 0 <= i < ds.drop_last().len() implies is_digit(
            #[trigger] ds.drop_last()[i],
        ) by {
            assert(ds.drop_last()[i] == ds[i]);
        }
        lemma_decimal_nonneg(ds.drop_last());
        assert(is_digit(ds[ds.len() - 1]));
    }
}

/// Reads a port number written in decimal, with an optional leading `+`.
pub fn parse_port(s: &String) -> (r: Option<u16>)
    ensures
        r == port_of(s@),
{
    let cs = chars_of(s);
    let n = cs.len();
    let mut i: usize = 0;
    if n > 0 && cs[0] == '+' {
        i = 1;
    }
    let ghost first = i as int;
    let ghost ds = port_digits(s@);
    assert(ds =~= cs@.skip(first));
    if i == n {
        return None;
    }
    let mut value: u32 = 0;
    while i < n
        invariant
            cs@ == s@,
            n == cs@.len(),
            0 <= first <= i <= n,
            ds == cs@.skip(first),
            ds == port_digits(s@),
            forall|t: int| first <= t < i ==> is_digit(#[trigger] cs@[t]),
            value as int == decimal_value(cs@.subrange(first, i as int)),
            value <= u16::MAX,
        decreases n - i,
    {
        let c = cs[i];
        if !('0' <= c && c <= '9') {
            assert(ds[i - first] == cs@[i as int]);
            assert(!is_digit(ds[i - first]));
            assert(port_of(s@) is None);
            return None;
        }
        let ghost next = cs@.subrange(first, i + 1);
        assert(next.drop_last() =~= cs@.subrange(first, i as int));
        assert(next.last() == c);
        let d = (c as u32) - ('0' as u32);
        value = value * 10 + d;
        assert(value as int == decimal_value(next));
        i = i + 1;
        if value > 65535 {
            proof {
                assert(next =~= ds.subrange(0, i - first));
                if forall|t: int| 0 <= t < ds.len() ==> is_digit(#[trigger] ds[t]) {
                    lemma_decimal_grows(ds, i - first);
                }
                assert(port_of(s@) is None);
            }
            return None;
        }
    }
    assert(cs@.subrange(first, n as int) =~= ds);
    Some(value as u16)
}

/// A longer run of digits writes a number at least as large as its prefix.
proof fn lemma_decimal_grows(ds: Seq<char>, k: int)
    requires
        0 <= k <= ds.len(),
        forall|i: int| 0 <= i < ds.len() ==> is_digit(#[trigger] ds[i]),
    ensures
        decimal_value(ds.subrange(0, k)) <= decimal_value(ds),
    decreases ds.len(),
{
    if k < ds.len() {
        assert forall|i: int| 0 <= i < ds.drop_last().len() implies is_digit(
            #[trigger] ds.drop_last()[i],
        ) by {
            assert(ds.drop_last()[i] == ds[i]);
        }
        lemma_decimal_grows(ds.drop_last(), k);
        assert(ds.drop_last().subrange(0, k) =~= ds.subrange(0, k));
        lemma_decimal_nonneg(ds.drop_last());
        assert(is_digit(ds[ds.len() - 1]));
    } else {
        assert(ds.subrange(0, k) =~= ds);
    }
}

/// Whether `a` starts with `-`, the mark of an option.
pub open spec fn is_option(a: Seq<char>) -> bool {
    a.len() > 0 && a[0] == '-'
}

/// What the command line `args` gives from position `i` on, where `target` and
/// `port` are what the positions before gave. `--port` takes the next argument
/// as the port, falling back to the default where it is no port number; the
/// first argument that is no option names the target.
pub open spec fn scan_args(args: Seq<Seq<char>>, i: int, target: Seq<char>, port: u16) -> (
    Seq<char>,
    u16,
)
    decreases args.len() - i,
{
    if i < 0 || i >= args.len() {
        (target, port)
    } else if args[i] == "--port"@ {
        if i + 1 < args.len() {
            let p = match port_of(args[i + 1]) {
                Some(p) => p,
                None => DEFAULT_PORT,
            };
            scan_args(args, i + 2, target, p)
        } else {
            scan_args(args, i + 1, target, port)
        }
    } else if !is_option(args[i]) && target.len() == 0 {
        scan_args(args, i + 1, args[i], port)
    } else {
        scan_args(args, i + 1, target, port)
    }
}

/// The views of the strings `args`.
pub open spec fn arg_views(args: Seq<String>) -> Seq<Seq<char>> {
    args.map_values(|a: String| a@)
}

fn first_char(s: &String) -> (r: Option<char>)
    ensures
        r == (if s@.len() > 0 {
            Some(s@[0])
        } else {
            None::<char>
        }),
{
    let mut it = s.as_str().chars();
    it.next()
}

/// Reads a node's command line; `args[0]` is the program's name.
pub fn parse_args(args: &Vec<String>) -> (r: CliOptions)
    ensures
        (r.target@, r.port) == scan_args(arg_views(args@), 1, Seq::empty(), DEFAULT_PORT),
{
    let ghost views = arg_views(args@);
    let port_flag = "--port".to_owned();
    let mut target = String::new();
    let mut port: u16 = DEFAULT_PORT;
    let mut i: usize = 1;
    while i < args.len()
        invariant
            views == arg_views(args@),
            port_flag@ == "--port"@,
            1 <= i,
            scan_args(views, 1, Seq::empty(), DEFAULT_PORT) == scan_args(views, i as int, target@, port),
        decreases args@.len() - i,
    {
        assert(views[i as int] == args@[i as int]@);
        if args[i] == port_flag {
            if i + 1 < args.len() {
                assert(views[i + 1] == args@[i + 1]@);
                port = match parse_port(&args[i + 1]) {
                    Some(p) => p,
                    None => DEFAULT_PORT,
                };
                i = i + 1;
            }
        } else if first_char(&target).is_none() {
            match first_char(&args[i]) {
                Some(c) => {
                    if c != '-' {
                        target = args[i].clone();
                    }
                },
                None => {
                    target = args[i].clone();
                },
            }
        }
        i = i + 1;
    }
    CliOptions { target, port }
}

/// The arguments the worker's interpreter is started with: the loader with
/// `target` where one was given, else the script `script`, else the module
/// `module`, else the default worker module.
pub fn worker_args(target: &String, script: Option<String>, module: Option<String>) -> (r: Vec<
    String,
>)
    ensures
        target@.len() > 0 ==> r@.len() == 3 && r@[0]@ == "-m"@ && r@[1]@
            == "anyserve_worker.loader"@ && r@[2]@ == target@,
        target@.len() == 0 && script is Some ==> r@.len() == 1 && r@[0]@ == script->Some_0@,
        target@.len() == 0 && script is None && module is Some ==> r@.len() == 2 && r@[0]@
            == "-m"@ && r@[1]@ == module->Some_0@,
        target@.len() == 0 && script is None && module is None ==> r@.len() == 2 && r@[0]@
            == "-m"@ && r@[1]@ == "anyserve_worker"@,
{
    let mut r: Vec<String> = Vec::new();
    if first_char(target).is_some() {
        r.push("-m".to_owned());
        r.push("anyserve_worker.loader".to_owned());
        r.push(target.clone());
    } else {
        match script {
            Some(s) => {
                r.push(s);
            },
            None => {
                r.push("-m".to_owned());
                match module {
                    Some(m) => {
                        r.push(m);
                    },
                    None => {
                        r.push("anyserve_worker".to_owned());
                    },
                }
            },
        }
    }
    r
}

} // verus!
