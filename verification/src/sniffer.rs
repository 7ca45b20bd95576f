//! The port sniffer: its command line and the ports each scanning thread
//! probes.

use vstd::prelude::*;
use crate::stride::{stride, stride_len, stride_u64, ints_u16, ints_u64};
use vstd::arithmetic::div_mod::{lemma_fundamental_div_mod, lemma_fundamental_div_mod_converse};
use crate::text::{parse_unsigned, parse_decimal, lemma_parse_unsigned_range};

verus! {

/// The highest TCP port, and the default end of the scanned range.
pub const MAX_PORT: u16 = 65535;

/// Why the command line was not turned into [`Arguments`].
#[derive(Debug, Clone, Copy, PartialEq, Eq, Structural)]
pub enum ArgsError {
    /// No arguments, or `-h` among them: the usage text is shown and the
    /// program ends successfully.
    Usage,
    /// The value after `-t` is not a number of threads.
    BadThreadNum,
    /// No address follows the options.
    MissingIp,
    /// The address does not parse.
    BadIp,
    /// The start port does not parse.
    BadStartPort,
    /// The end port does not parse.
    BadEndPort,
    /// The end port lies below the start port.
    EndBeforeStart,
}

impl ArgsError {
    /// The text shown for this outcome: the usage text for [`ArgsError::Usage`],
    /// the error message otherwise.
    pub fn message(&self) -> (text: &'static str)
        ensures
            *self == ArgsError::Usage ==> text == "
Usage: port_sniffer [Option]... ip [startPort] [endPort]
    -h help
    -t thread num     
    ",
            *self == ArgsError::BadThreadNum ==> text == "-t param must be number",
            *self == ArgsError::MissingIp ==> text == "ipAddr must be present",
            *self == ArgsError::BadIp ==> text == "ip format is not right",
            *self == ArgsError::BadStartPort ==> text == "startPort format is not right",
            *self == ArgsError::BadEndPort ==> text == "endPort format is not right",
            *self == ArgsError::EndBeforeStart ==> text == "end should be greater than start",
    {
        match self {
            ArgsError::Usage => "
Usage: port_sniffer [Option]... ip [startPort] [endPort]
    -h help
    -t thread num     
    ",
            ArgsError::BadThreadNum => "-t param must be number",
            ArgsError::MissingIp => "ipAddr must be present",
            ArgsError::BadIp => "ip format is not right",
            ArgsError::BadStartPort => "startPort format is not right",
            ArgsError::BadEndPort => "endPort format is not right",
            ArgsError::EndBeforeStart => "end should be greater than start",
        }
    }
}

/// What to scan: an address, an inclusive range of ports, and how many
/// threads share the work.
#[derive(Debug)]
pub struct Arguments<Ip> {
    pub ip: Ip,
    pub start_port: u16,
    pub end_port: u16,
    pub thread_num: u16,
}

/// The `-h` option.
pub open spec fn help_flag() -> Seq<char> {
    seq!['-', 'h']
}

/// The `-t` option.
pub open spec fn threads_flag() -> Seq<char> {
    seq!['-', 't']
}

/// A port or a thread count written in decimal.
pub open spec fn parse_u16(s: Seq<char>) -> Option<int> {
    parse_unsigned(s, MAX_PORT as int)
}

/// The command line asks for the usage text: it has no argument after the
/// program's name, or `-h` is anywhere in it.
pub open spec fn wants_usage(args: Seq<Seq<char>>) -> bool {
    args.len() < 2 || args.contains(help_flag())
}

/// The command lines on which reading the options does not run off the end:
/// `-t` is followed by a value unless the usage text is shown first.
pub open spec fn arguments_readable(args: Seq<Seq<char>>) -> bool {
    !wants_usage(args) && args[1] == threads_flag() ==> args.len() > 2
}

/// The outcome of reading the options in front of the address: the number
/// of threads and the position of the address, or why reading stops there.
pub open spec fn options_outcome(args: Seq<Seq<char>>) -> Result<(u16, int), ArgsError> {
    if wants_usage(args) {
        Err(ArgsError::Usage)
    } else if args[1] == threads_flag() {
        match parse_u16(args[2]) {
            None => Err(ArgsError::BadThreadNum),
            Some(t) => if 3 >= args.len() {
                Err(ArgsError::MissingIp)
            } else {
                Ok((t as u16, 3))
            },
        }
    } else {
        Ok((4, 1))
    }
}

/// The outcome once the address at `ip_index` has been read as `ip`: the
/// optional start and end ports follow it, defaulting to 1 and 65535.
pub open spec fn ports_outcome<Ip>(
    args: Seq<Seq<char>>,
    thread_num: u16,
    ip_index: int,
    ip: Option<Ip>,
) -> Result<Arguments<Ip>, ArgsError> {
    let start = if ip_index + 1 < args.len() {
        parse_u16(args[ip_index + 1])
    } else {
        Some(1)
    };
    let end = if ip_index + 2 < args.len() {
        parse_u16(args[ip_index + 2])
    } else {
        Some(MAX_PORT as int)
    };
    match ip {
        None => Err(ArgsError::BadIp),
        Some(ip) => match start {
            None => Err(ArgsError::BadStartPort),
            Some(s) => match end {
                None => Err(ArgsError::BadEndPort),
                Some(e) => if e < s {
                    Err(ArgsError::EndBeforeStart)
                } else {
                    Ok(Arguments { ip, start_port: s as u16, end_port: e as u16, thread_num })
                },
            },
        },
    }
}

/// Whether `args` holds an element equal to `flag`.
fn contains_arg(args: &Vec<String>, flag: &String) -> (found: bool)
    ensures
        found == args.deep_view().contains(flag@),
{
    let mut i: usize = 0;
    while i < args.len()
        invariant
            i <= args.len(),
            forall|j: int| 0 <= j < i ==> args.deep_view()[j] != flag@,
        decreases args.len() - i,
    {
        if args[i] == *flag {
            assert(args.deep_view()[i as int] == flag@);
            return true;
        }
        i = i + 1;
    }
    proof {
        if args.deep_view().contains(flag@) {
            let j = choose|j: int| 0 <= j < args.deep_view().len() && args.deep_view()[j] == flag@;
            assert(args.deep_view()[j] != flag@);
        }
    }
    false
}

/// Reads a port (or thread count) argument.
fn read_u16(s: &String) -> (value: Option<u16>)
    ensures
        match value {
            Some(v) => parse_u16(s@) == Some(v as int),
            None => parse_u16(s@) is None,
        },
{
    match parse_decimal(s.as_str(), 65535) {
        Some(v) => Some(v as u16),
        None => None,
    }
}

impl<Ip> Arguments<Ip> {
    /// Reads the command line `program [-t threads] ip [startPort] [endPort]`.
    ///
    /// `parse_ip` reads the address; it is called once, on the argument in the
    /// address's position, and only when reading gets that far.
    pub fn new<F: Fn(&String) -> Option<Ip>>(args: &Vec<String>, parse_ip: F) -> (result: Result<
        Arguments<Ip>,
        ArgsError,
    >)
        requires
            arguments_readable(args.deep_view()),
            forall|s: &String| #[trigger] parse_ip.requires((s,)),
        ensures
            options_outcome(args.deep_view()) matches Err(e) ==> result == Err::<Arguments<Ip>, _>(
                e,
            ),
            options_outcome(args.deep_view()) matches Ok((thread_num, ip_index)) ==> exists|
                ip: Option<Ip>,
            |
                #[trigger] parse_ip.ensures((&args@[ip_index],), ip) && result == ports_outcome(
                    args.deep_view(),
                    thread_num,
                    ip_index,
                    ip,
                ),
        result matches Ok(parsed) ==> parsed.start_port <= parsed.end_port,
    {
        let ghost a = args.deep_view();
        let size = args.len();
        if size < 2 {
            return Err(ArgsError::Usage);
        }
        let help = String::from_str("-h");
        proof {
            reveal_strlit("-h");
            assert(help@ =~= help_flag());
        }
        if contains_arg(args, &help) {
            return Err(ArgsError::Usage);
        }
        let threads = String::from_str("-t");
        proof {
            reveal_strlit("-t");
            assert(threads@ =~= threads_flag());
        }
        let mut thread_num: u16 = 4;
        let mut index: usize = 1;
        if args[1] == threads {
            index = 2;
            thread_num = match read_u16(&args[2]) {
                Some(t) => t,
                None => return Err(ArgsError::BadThreadNum),
            };
            index = 3;
        }
        if index >= size {
            return Err(ArgsError::MissingIp);
        }
        assert(options_outcome(a) == Ok::<(u16, int), ArgsError>((thread_num, index as int)));
        let ip = parse_ip(&args[index]);
        let ghost parsed = ip;
        let result = match ip {
            Some(ip) => Self::with_ports(args, thread_num, index, ip),
            None => Err(ArgsError::BadIp),
        };
        proof {
            match parsed {
                Some(x) => lemma_ports(a, thread_num, index as int, x),
                None => {},
            }
            assert(options_outcome(args.deep_view()) matches Ok((thread_num, ip_index)) ==> exists|
                ip: Option<Ip>,
            |
                #[trigger] parse_ip.ensures((&args@[ip_index],), ip) && result == ports_outcome(
                    args.deep_view(),
                    thread_num,
                    ip_index,
                    ip,
                ));
        }
        result
    }

    /// Finishes reading the command line once the address at `ip_index` has
    /// been read as `ip`.
    fn with_ports(args: &Vec<String>, thread_num: u16, ip_index: usize, ip: Ip) -> (result: Result<
        Arguments<Ip>,
        ArgsError,
    >)
        requires
            ip_index < args.len(),
        ensures
            result == ports_outcome(args.deep_view(), thread_num, ip_index as int, Some(ip)),
    {
        let size = args.len();
        let start_port: u16 = if size - ip_index > 1 {
            match read_u16(&args[ip_index + 1]) {
                Some(p) => p,
                None => return Err(ArgsError::BadStartPort),
            }
        } else {
            1
        };
        let end_port: u16 = if size - ip_index > 2 {
            match read_u16(&args[ip_index + 2]) {
                Some(p) => p,
                None => return Err(ArgsError::BadEndPort),
            }
        } else {
            MAX_PORT
        };
        if end_port < start_port {
            return Err(ArgsError::EndBeforeStart);
        }
        Ok(Arguments { ip, start_port, end_port, thread_num })
    }
}

/// The ports one scanning thread probes, and whether stepping past the last
/// of them leaves the range of `u16` (an arithmetic overflow in the walk).
pub struct PortScan {
    pub ports: Vec<u16>,
    pub overflows: bool,
}

/// Walks the ports `start, start + step, ...` that do not exceed `end`.
pub fn scan_ports(start: u16, end: u16, step: u16) -> (scan: PortScan)
    requires
        step > 0,
    ensures
        ints_u16(scan.ports@) == stride(start as int, step as int, end as int),
        scan.overflows == (scan.ports@.len() > 0 && scan.ports@.last() + step > MAX_PORT),
        forall|j: int| 0 <= j < scan.ports@.len() ==> #[trigger] scan.ports@[j] == start + j * step,
        forall|j: int| 0 <= j < scan.ports@.len() ==> #[trigger] scan.ports@[j] <= end,
        scan.ports@.len() == 0 ==> start > end,
        scan.ports@.len() > 0 ==> scan.ports@.last() + step > end,
{
    let walk = stride_u64(start as u64, step as u64, end as u64, MAX_PORT as u64);
    let mut ports: Vec<u16> = Vec::new();
    let mut i: usize = 0;
    while i < walk.points.len()
        invariant
            i <= walk.points@.len(),
            ports@.len() == i,
            forall|j: int| 0 <= j < walk.points@.len() ==> #[trigger] walk.points@[j] <= end,
            forall|j: int| 0 <= j < i ==> #[trigger] ports@[j] == walk.points@[j],
        decreases walk.points.len() - i,
    {
        ports.push(walk.points[i] as u16);
        i = i + 1;
    }
    assert(ints_u16(ports@) =~= ints_u64(walk.points@));
    PortScan { ports, overflows: walk.overflows }
}

/// The number of scanning threads that can start: thread `i` starts at
/// `start_port + i`, so the threads whose start would pass the highest port
/// cannot.
pub open spec fn startable_threads(start_port: u16, thread_num: u16) -> int {
    if start_port + thread_num - 1 <= MAX_PORT {
        thread_num as int
    } else {
        MAX_PORT - start_port + 1
    }
}

/// Some scan in `scans` probes the port `p`.
pub open spec fn probed_by_some(scans: Seq<PortScan>, p: int) -> bool {
    exists|i: int| 0 <= i < scans.len() && #[trigger] ints_u16(scans[i].ports@).contains(p)
}

/// Builds the scans of the threads that can start, in order.
fn build_scans(start_port: u16, end_port: u16, thread_num: u16) -> (scans: Vec<PortScan>)
    ensures
        scans@.len() == startable_threads(start_port, thread_num),
        forall|i: int|
            0 <= i < scans@.len() ==> ints_u16(#[trigger] scans@[i].ports@) == stride(
                start_port + i,
                thread_num as int,
                end_port as int,
            ),
        forall|i: int|
            0 <= i < scans@.len() ==> #[trigger] scans@[i].overflows == (scans@[i].ports@.len() > 0
                && scans@[i].ports@.last() + thread_num > MAX_PORT),
{
    let mut scans: Vec<PortScan> = Vec::new();
    let mut i: u16 = 0;
    while i < thread_num
        invariant
            i <= thread_num,
            start_port + i - 1 <= MAX_PORT,
            scans@.len() == i,
            forall|j: int|
                0 <= j < i ==> ints_u16(#[trigger] scans@[j].ports@) == stride(
                    start_port + j,
                    thread_num as int,
                    end_port as int,
                ),
            forall|j: int|
                0 <= j < i ==> #[trigger] scans@[j].overflows == (scans@[j].ports@.len() > 0
                    && scans@[j].ports@.last() + thread_num > MAX_PORT),
        decreases thread_num - i,
    {
        let start = match start_port.checked_add(i) {
            Some(s) => s,
            None => {
                return scans;
            },
        };
        scans.push(scan_ports(start, end_port, thread_num));
        i = i + 1;
    }
    scans
}

/// The ports each scanning thread probes: thread `i` of `thread_num` starts
/// at `start_port + i` and steps by `thread_num`. The list stops at the first
/// thread whose start would pass the highest port.
///
/// Every port of the range is in the scan of some thread; all `thread_num`
/// threads start unless one's start would pass the highest port.
pub fn thread_scans(start_port: u16, end_port: u16, thread_num: u16) -> (scans: Vec<PortScan>)
    ensures
        scans@.len() == startable_threads(start_port, thread_num),
        start_port + thread_num - 1 <= MAX_PORT ==> scans@.len() == thread_num,
        scans@.len() <= thread_num,
        forall|i: int|
            0 <= i < scans@.len() ==> ints_u16(#[trigger] scans@[i].ports@) == stride(
                start_port + i,
                thread_num as int,
                end_port as int,
            ),
        forall|i: int|
            0 <= i < scans@.len() ==> #[trigger] scans@[i].overflows == (scans@[i].ports@.len() > 0
                && scans@[i].ports@.last() + thread_num > MAX_PORT),
        thread_num > 0 ==> forall|p: int|
            start_port <= p <= end_port ==> #[trigger] probed_by_some(scans@, p),
{
    let scans = build_scans(start_port, end_port, thread_num);
    proof {
        if thread_num > 0 {
            assert forall|p: int| start_port <= p <= end_port implies #[trigger] probed_by_some(
                scans@,
                p,
            ) by {
                lemma_ports_partitioned(start_port as int, end_port as int, thread_num as int, p);
                let i = (p - start_port) % (thread_num as int);
                assert(ints_u16(scans@[i].ports@).contains(p));
            }
        }
    }
    scans
}

/// Together the scanning threads probe every port of the range exactly
/// once: a port between `start_port` and `end_port` is among the ports of
/// exactly one thread, namely thread `(port - start_port) % thread_num`,
/// whose own start does not pass the port (so that thread can always start).
pub proof fn lemma_ports_partitioned(start_port: int, end_port: int, thread_num: int, port: int)
    requires
        thread_num > 0,
        start_port <= port <= end_port,
    ensures
        0 <= (port - start_port) % thread_num <= port - start_port,
        stride(start_port + (port - start_port) % thread_num, thread_num, end_port).contains(port),
        forall|i: int|
            0 <= i < thread_num && #[trigger] stride(start_port + i, thread_num, end_port).contains(
                port,
            ) ==> i == (port - start_port) % thread_num,
{
    let n = thread_num;
    let d = port - start_port;
    let i = d % n;
    let k = d / n;
    lemma_fundamental_div_mod(d, n);
    assert(0 <= i < n);
    assert(k >= 0) by (nonlinear_arith)
        requires
            d == n * k + i,
            d >= 0,
            0 <= i < n,
    ;
    assert(i <= d) by (nonlinear_arith)
        requires
            d == n * k + i,
            k >= 0,
            n > 0,
    ;
    let first = start_port + i;
    assert(first + k * n == port) by (nonlinear_arith)
        requires
            d == n * k + i,
            first == start_port + i,
            d == port - start_port,
    ;
    let q = (end_port - first) / n;
    lemma_fundamental_div_mod(end_port - first, n);
    assert(k <= q) by (nonlinear_arith)
        requires
            k * n <= end_port - first,
            end_port - first == n * q + (end_port - first) % n,
            0 <= (end_port - first) % n < n,
            n > 0,
    ;
    assert(stride_len(first, n, end_port) == q + 1);
    let ports = stride(first, n, end_port);
    assert(ports[k] == port);
    assert forall|j: int|
        0 <= j < n && #[trigger] stride(start_port + j, n, end_port).contains(port) implies j == i by {
        let ports_j = stride(start_port + j, n, end_port);
        let m = choose|m: int| 0 <= m < ports_j.len() && ports_j[m] == port;
        assert(d == m * n + j);
        lemma_fundamental_div_mod_converse(d, n, m, j);
    }
}

/// How the options in front of the address are read: no argument after the
/// program's name, or `-h` anywhere, asks for the usage text; without `-t`
/// four threads are used and the address comes first; `-t n` sets the
/// thread count and puts the address after it.
pub proof fn lemma_options(args: Seq<Seq<char>>)
    ensures
        args.len() < 2 ==> options_outcome(args) == Err::<(u16, int), ArgsError>(ArgsError::Usage),
        args.contains(seq!['-', 'h']) ==> options_outcome(args) == Err::<(u16, int), ArgsError>(
            ArgsError::Usage,
        ),
        args.len() >= 2 && !args.contains(seq!['-', 'h']) && args[1] != seq!['-', 't'] ==> options_outcome(args)
            == Ok::<(u16, int), ArgsError>((4, 1)),
        args.len() > 3 && !args.contains(seq!['-', 'h']) && args[1] == seq!['-', 't'] ==> match parse_unsigned(args[2], 65535) {
            Some(t) => options_outcome(args) == Ok::<(u16, int), ArgsError>((t as u16, 3)),
            None => options_outcome(args) == Err::<(u16, int), ArgsError>(ArgsError::BadThreadNum),
        },
        args.len() == 3 && !args.contains(seq!['-', 'h']) && args[1] == seq!['-', 't'] ==> match parse_unsigned(args[2], 65535) {
            Some(t) => options_outcome(args) == Err::<(u16, int), ArgsError>(ArgsError::MissingIp),
            None => options_outcome(args) == Err::<(u16, int), ArgsError>(ArgsError::BadThreadNum),
        },
{
}

/// How the ports after the address are read: each port that is given must
/// be a number, a missing start port is 1 and a missing end port is 65535
/// (whatever the start port is), and the end may not lie below the start.
/// An address that does not parse is reported before any port.
pub proof fn lemma_ports<Ip>(args: Seq<Seq<char>>, thread_num: u16, ip_index: int, ip: Ip)
    requires
        0 <= ip_index < args.len(),
    ensures
        ports_outcome(args, thread_num, ip_index, None::<Ip>) == Err::<Arguments<Ip>, ArgsError>(
            ArgsError::BadIp,
        ),
        ip_index + 1 == args.len() ==> ports_outcome(args, thread_num, ip_index, Some(ip)) == Ok::<
            Arguments<Ip>,
            ArgsError,
        >(Arguments { ip, start_port: 1, end_port: 65535, thread_num }),
        ip_index + 2 == args.len() ==> match parse_unsigned(args[ip_index + 1], 65535) {
            Some(start) => ports_outcome(args, thread_num, ip_index, Some(ip)) == Ok::<
                Arguments<Ip>,
                ArgsError,
            >(Arguments { ip, start_port: start as u16, end_port: 65535, thread_num }),
            None => ports_outcome(args, thread_num, ip_index, Some(ip)) == Err::<
                Arguments<Ip>,
                ArgsError,
            >(ArgsError::BadStartPort),
        },
        ip_index + 2 < args.len() ==> match (
            parse_unsigned(args[ip_index + 1], 65535),
            parse_unsigned(args[ip_index + 2], 65535),
        ) {
            (None, _) => ports_outcome(args, thread_num, ip_index, Some(ip)) == Err::<
                Arguments<Ip>,
                ArgsError,
            >(ArgsError::BadStartPort),
            (Some(_), None) => ports_outcome(args, thread_num, ip_index, Some(ip)) == Err::<
                Arguments<Ip>,
                ArgsError,
            >(ArgsError::BadEndPort),
            (Some(start), Some(end)) => ports_outcome(args, thread_num, ip_index, Some(ip)) == if end
                < start {
                Err::<Arguments<Ip>, ArgsError>(ArgsError::EndBeforeStart)
            } else {
                Ok(Arguments { ip, start_port: start as u16, end_port: end as u16, thread_num })
            },
        },
        ports_outcome(args, thread_num, ip_index, Some(ip)) matches Ok(a) ==> a.start_port
            <= a.end_port && a.thread_num == thread_num,
{
    if ip_index + 1 < args.len() {
        lemma_parse_unsigned_range(args[ip_index + 1], 65535);
    }
    if ip_index + 2 < args.len() {
        lemma_parse_unsigned_range(args[ip_index + 2], 65535);
    }
}

} // verus!
