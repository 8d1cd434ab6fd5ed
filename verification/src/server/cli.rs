//! Command line of the server.

use crate::common::scan::{
    decimal_reads_back, dots_at, find_dots, number, parse_number, pieces, split,
    text_without_separator_is_one_piece, trim, trimmed, trimmed_text_stays,
    written_number_has_only_digits,
};
use crate::common::text::{concat2, concat3, dec, decimal};
use std::collections::HashSet;
use vstd::prelude::*;
use vstd::string::*;

verus! {

broadcast use vstd::std_specs::hash::group_hash_axioms;

/// Options of the server.
#[derive(Debug)]
pub struct Cli {
    /// Port that the management API listens on.
    pub management_port: u16,
    /// Address that the management API listens on.
    pub management_addr: String,
    /// Ports that the stores listen on, as a list of numbers and ranges.
    pub ports: Option<String>,
    /// Stores to start with, as a list of numbers and ranges. Without it the
    /// server starts with no stores.
    pub stores: Option<String>,
    /// Groups of every store to start with.
    pub groups: Option<String>,
    /// Id of the local replica.
    pub replica: u64,
    /// Log to the console too.
    pub log: bool,
    pub wal_root: Option<String>,
    /// Root of the group configuration files.
    pub config_root: Option<String>,
    /// `default` or `test`.
    pub election_profile: String,
    /// `memory` or `crowtree`.
    pub kv_engine: String,
    /// Root of the tree engine's files.
    pub data_root: Option<String>,
    /// `file` or `block`.
    pub kv_backend: String,
}

/// What one part of a list says.
pub enum PartView {
    /// Nothing.
    Skip,
    /// The numbers from the first to the last.
    Span(u64, u64),
    /// Nothing that could be read.
    Bad(Seq<char>),
}

/// The part of a text before `..`, and the one behind.
pub open spec fn halves(part: Seq<char>) -> Option<(Seq<char>, Seq<char>)> {
    if exists|i: int| dots_at(part, i) {
        let i = choose|i: int| dots_at(part, i);
        Some((part.take(i), part.skip(i + 2)))
    } else {
        None
    }
}

/// What the part `raw` of a list says: a number, or two numbers with `..`
/// between them, of which the first must be less than the second.
pub open spec fn part_of(raw: Seq<char>) -> PartView {
    let part = trimmed(raw);
    let max = u64::MAX as nat;
    if part.len() == 0 {
        PartView::Skip
    } else {
        match halves(part) {
            Some((first, last)) => match (number(trimmed(first), max), number(trimmed(last), max)) {
                (None, _) => PartView::Bad("invalid range start: '"@ + first + "'"@),
                (_, None) => PartView::Bad("invalid range end: '"@ + last + "'"@),
                (Some(a), Some(b)) => if a > b {
                    PartView::Bad("range start must be <= end: '"@ + part + "'"@)
                } else if a == b {
                    PartView::Bad("range start must be < end: '"@ + part + "'"@)
                } else {
                    PartView::Span(a as u64, b as u64)
                },
            },
            None => match number(part, max) {
                Some(n) => PartView::Span(n as u64, n as u64),
                None => PartView::Bad("invalid number: '"@ + part + "'"@),
            },
        }
    }
}

/// `ids` followed by those numbers from `a` to `b` that were not there yet.
pub open spec fn with_span(ids: Seq<u64>, a: int, b: int) -> Seq<u64>
    decreases b - a + 1,
{
    if a > b {
        ids
    } else {
        let front = with_span(ids, a, b - 1);
        if front.contains(b as u64) {
            front
        } else {
            front.push(b as u64)
        }
    }
}

/// The numbers that the parts of a list say, each at its first place, or the
/// error of the first part that cannot be read.
pub open spec fn listed(parts: Seq<Seq<char>>) -> Result<Seq<u64>, Seq<char>>
    decreases parts.len(),
{
    if parts.len() == 0 {
        Ok(Seq::empty())
    } else {
        match listed(parts.drop_last()) {
            Err(e) => Err(e),
            Ok(ids) => match part_of(parts.last()) {
                PartView::Skip => Ok(ids),
                PartView::Span(a, b) => Ok(with_span(ids, a as int, b as int)),
                PartView::Bad(e) => Err(e),
            },
        }
    }
}

/// The numbers that a list says. An empty list is an error.
pub open spec fn id_list(input: Seq<char>) -> Result<Seq<u64>, Seq<char>> {
    match listed(pieces(input, ',')) {
        Ok(ids) => if ids.len() == 0 {
            Err("empty list"@)
        } else {
            Ok(ids)
        },
        Err(e) => Err(e),
    }
}

/// A part of a list, read.
enum Part {
    Skip,
    Span(u64, u64),
    Bad(String),
}

impl View for Part {
    type V = PartView;

    closed spec fn view(&self) -> PartView {
        match self {
            Part::Skip => PartView::Skip,
            Part::Span(a, b) => PartView::Span(*a, *b),
            Part::Bad(e) => PartView::Bad(e@),
        }
    }
}

proof fn lemma_dots_unique(s: Seq<char>, i: int)
    requires
        dots_at(s, i),
    ensures
        halves(s) == Some((s.take(i), s.skip(i + 2))),
{
    let c = choose|c: int| dots_at(s, c);
    assert(dots_at(s, c));
    if c < i {
        assert(!(s[c] == '.' && s[c + 1] == '.'));
    } else if i < c {
        assert(!(s[i] == '.' && s[i + 1] == '.'));
    }
}

fn read_part(raw: &str) -> (r: Part)
    ensures
        r@ == part_of(raw@),
{
    let part: &str = trim(raw);
    if part.unicode_len() == 0 {
        return Part::Skip;
    }
    match find_dots(part) {
        Some(i) => {
            let first: &str = part.substring_char(0, i);
            let last: &str = part.substring_char(i + 2, part.unicode_len());
            proof {
                lemma_dots_unique(part@, i as int);
                assert(part@.subrange(0, i as int) =~= part@.take(i as int));
                assert(part@.subrange(i + 2, part@.len() as int) =~= part@.skip(i + 2));
            }
            let a: u64 = match parse_number(trim(first), u64::MAX) {
                Some(a) => a,
                None => {
                    return Part::Bad(concat3("invalid range start: '", first, "'"));
                },
            };
            let b: u64 = match parse_number(trim(last), u64::MAX) {
                Some(b) => b,
                None => {
                    return Part::Bad(concat3("invalid range end: '", last, "'"));
                },
            };
            if a > b {
                Part::Bad(concat3("range start must be <= end: '", part, "'"))
            } else if a == b {
                Part::Bad(concat3("range start must be < end: '", part, "'"))
            } else {
                Part::Span(a, b)
            }
        },
        None => match parse_number(part, u64::MAX) {
            Some(n) => Part::Span(n, n),
            None => Part::Bad(concat3("invalid number: '", part, "'")),
        },
    }
}

/// Parse a list of numbers and ranges: numbers, and ranges of a first and a
/// last number with `..` between them, separated by commas. White space around
/// numbers and empty parts are passed over. A number that occurs twice stays at
/// its first place.
pub fn parse_id_list(input: &str) -> (r: Result<Vec<u64>, String>)
    ensures
        match (r, id_list(input@)) {
            (Ok(ids), Ok(want)) => ids@ == want,
            (Err(e), Err(want)) => e@ == want,
            _ => false,
        },
{
    let parts: Vec<&str> = split(input, ',');
    let ghost views = parts@.map_values(|p: &str| p@);
    let mut seen: HashSet<u64> = HashSet::new();
    let mut result: Vec<u64> = Vec::new();
    let mut i: usize = 0;
    proof {
        assert(views.take(0) =~= Seq::empty());
    }
    while i < parts.len()
        invariant
            i <= parts.len(),
            views == parts@.map_values(|p: &str| p@),
            views == pieces(input@, ','),
            listed(views.take(i as int)) == Ok::<Seq<u64>, Seq<char>>(result@),
            forall|v: u64| #[trigger] seen@.contains(v) == result@.contains(v),
        decreases parts.len() - i,
    {
        let part = read_part(parts[i]);
        proof {
            assert(views.take(i + 1).drop_last() =~= views.take(i as int));
            assert(views.take(i + 1).last() == parts@[i as int]@);
        }
        match part {
            Part::Skip => {},
            Part::Span(a, b) => {
                let ghost before = result@;
                let mut v: u64 = a;
                let mut more = a <= b;
                while more
                    invariant
                        more ==> a <= v <= b,
                        result@ == with_span(
                            before,
                            a as int,
                            if more {
                                v - 1
                            } else {
                                b as int
                            },
                        ),
                        forall|v: u64| #[trigger] seen@.contains(v) == result@.contains(v),
                    decreases
                            if more {
                                b - v + 1
                            } else {
                                0
                            },
                {
                    let ghost held = result@;
                    if seen.insert(v) {
                        result.push(v);
                        proof {
                            assert forall|w: u64| #[trigger]
                                seen@.contains(w) == result@.contains(w) by {
                                if w == v {
                                    assert(result@[held.len() as int] == v);
                                } else {
                                    if held.contains(w) {
                                        let k = held.index_of(w);
                                        assert(result@[k] == w);
                                    }
                                    if result@.contains(w) {
                                        let k = result@.index_of(w);
                                        assert(held[k] == w);
                                    }
                                }
                            }
                        }
                    }
                    if v < b {
                        v = v + 1;
                    } else {
                        more = false;
                    }
                }
            },
            Part::Bad(e) => {
                proof {
                    lemma_error_stays(views, i + 1);
                }
                return Err(e);
            },
        }
        i = i + 1;
    }
    proof {
        assert(views.take(i as int) =~= views);
    }
    if result.is_empty() {
        return Err("empty list".to_owned());
    }
    Ok(result)
}

proof fn lemma_error_stays(parts: Seq<Seq<char>>, i: int)
    requires
        0 <= i <= parts.len(),
        listed(parts.take(i)) is Err,
    ensures
        listed(parts) == listed(parts.take(i)),
    decreases parts.len(),
{
    if i < parts.len() {
        assert(parts.drop_last().take(i) =~= parts.take(i));
        lemma_error_stays(parts.drop_last(), i);
    } else {
        assert(parts.take(i) =~= parts);
    }
}

/// Numbers as ports, or the first of them that is none.
pub open spec fn as_ports(ids: Seq<u64>) -> Result<Seq<u16>, u64>
    decreases ids.len(),
{
    if ids.len() == 0 {
        Ok(Seq::empty())
    } else {
        match as_ports(ids.drop_last()) {
            Err(v) => Err(v),
            Ok(ports) => if ids.last() > 65535 {
                Err(ids.last())
            } else {
                Ok(ports.push(ids.last() as u16))
            },
        }
    }
}

/// The ports that a list says.
pub open spec fn port_list(input: Seq<char>) -> Result<Seq<u16>, Seq<char>> {
    match id_list(input) {
        Err(e) => Err(e),
        Ok(ids) => match as_ports(ids) {
            Ok(ports) => Ok(ports),
            Err(v) => Err("port out of range (0-65535): "@ + dec(v as nat)),
        },
    }
}

proof fn lemma_bad_port_stays(ids: Seq<u64>, i: int)
    requires
        0 <= i <= ids.len(),
        as_ports(ids.take(i)) is Err,
    ensures
        as_ports(ids) == as_ports(ids.take(i)),
    decreases ids.len(),
{
    if i < ids.len() {
        assert(ids.drop_last().take(i) =~= ids.take(i));
        lemma_bad_port_stays(ids.drop_last(), i);
    } else {
        assert(ids.take(i) =~= ids);
    }
}

/// Parse a list of ports, in the format of `parse_id_list`.
pub fn parse_port_list(input: &str) -> (r: Result<Vec<u16>, String>)
    ensures
        match (r, port_list(input@)) {
            (Ok(ports), Ok(want)) => ports@ == want,
            (Err(e), Err(want)) => e@ == want,
            _ => false,
        },
{
    let ids: Vec<u64> = parse_id_list(input)?;
    let mut ports: Vec<u16> = Vec::new();
    let mut i: usize = 0;
    proof {
        assert(ids@.take(0) =~= Seq::empty());
    }
    while i < ids.len()
        invariant
            i <= ids.len(),
            id_list(input@) == Ok::<Seq<u64>, Seq<char>>(ids@),
            as_ports(ids@.take(i as int)) == Ok::<Seq<u16>, u64>(ports@),
        decreases ids.len() - i,
    {
        let v: u64 = ids[i];
        proof {
            assert(ids@.take(i + 1).drop_last() =~= ids@.take(i as int));
            assert(ids@.take(i + 1).last() == v);
        }
        if v > 65535 {
            let text: String = decimal(v);
            proof {
                lemma_bad_port_stays(ids@, i + 1);
            }
            return Err(concat2("port out of range (0-65535): ", text.as_str()));
        }
        ports.push(v as u16);
        i = i + 1;
    }
    proof {
        assert(ids@.take(i as int) =~= ids@);
    }
    Ok(ports)
}

/// What the server starts with.
#[derive(Debug)]
pub struct Bootstrap {
    pub store_ids: Vec<u64>,
    pub group_ids: Vec<u64>,
    pub replica_id: u64,
    pub ports: Vec<u16>,
}

/// What a start says.
pub struct BootstrapView {
    pub store_ids: Seq<u64>,
    pub group_ids: Seq<u64>,
    pub replica_id: u64,
    pub ports: Seq<u16>,
}

impl View for Bootstrap {
    type V = BootstrapView;

    open spec fn view(&self) -> BootstrapView {
        BootstrapView {
            store_ids: self.store_ids@,
            group_ids: self.group_ids@,
            replica_id: self.replica_id,
            ports: self.ports@,
        }
    }
}

/// The ports for `stores` stores: any free ones without a list, else those of
/// the list, which must be enough.
pub open spec fn store_ports(list: Option<String>, stores: nat) -> Result<Seq<u16>, Seq<char>> {
    match list {
        None => Ok(Seq::new(stores, |i: int| 0u16)),
        Some(list) => match port_list(list@) {
            Err(e) => Err("invalid --ports: "@ + e),
            Ok(ports) => if ports.len() < stores {
                Err(
                    "--ports has "@ + dec(ports.len()) + " ports but --stores needs "@ + dec(
                        stores,
                    ),
                )
            } else {
                Ok(ports)
            },
        },
    }
}

/// What the server starts with, by its options: nothing without stores. The
/// options are checked in the order of stores, groups, replica and ports.
pub open spec fn bootstrap_of(args: Cli) -> Result<Option<BootstrapView>, Seq<char>> {
    if args.stores is None {
        Ok(None)
    } else {
        let groups = match args.groups {
            Some(list) => id_list(list@),
            None => Ok(Seq::empty()),
        };
        match (id_list(args.stores->0@), groups) {
            (Err(e), _) => Err("invalid --stores: "@ + e),
            (_, Err(e)) => Err("invalid --groups: "@ + e),
            (Ok(store_ids), Ok(group_ids)) => if !(1 <= args.replica <= 128) {
                Err("--replica must be in range [1, 128], got "@ + dec(args.replica as nat))
            } else {
                match store_ports(args.ports, store_ids.len()) {
                    Err(e) => Err(e),
                    Ok(ports) => Ok(
                        Some(
                            BootstrapView {
                                store_ids,
                                group_ids,
                                replica_id: args.replica,
                                ports,
                            },
                        ),
                    ),
                }
            },
        }
    }
}

/// Check the options of a start with stores. Without stores there is nothing to
/// start with. Without ports every store takes any free port; with ports there
/// must be one for every store.
pub fn parse_and_validate_cli_args(args: &Cli) -> (r: Result<Option<Bootstrap>, String>)
    ensures
        match (r, bootstrap_of(*args)) {
            (Ok(Some(b)), Ok(Some(want))) => b@ == want,
            (Ok(None), Ok(None)) => true,
            (Err(e), Err(want)) => e@ == want,
            _ => false,
        },
{
    let stores = match &args.stores {
        Some(s) => s,
        None => {
            return Ok(None);
        },
    };
    let store_ids: Vec<u64> = match parse_id_list(stores.as_str()) {
        Ok(ids) => ids,
        Err(e) => {
            return Err(concat2("invalid --stores: ", e.as_str()));
        },
    };
    let group_ids: Vec<u64> = match &args.groups {
        Some(groups) => match parse_id_list(groups.as_str()) {
            Ok(ids) => ids,
            Err(e) => {
                return Err(concat2("invalid --groups: ", e.as_str()));
            },
        },
        None => Vec::new(),
    };
    let replica_id: u64 = args.replica;
    if replica_id < 1 || replica_id > 128 {
        let text: String = decimal(replica_id);
        return Err(concat2("--replica must be in range [1, 128], got ", text.as_str()));
    }
    let ports: Vec<u16> = match &args.ports {
        Some(list) => {
            let ports: Vec<u16> = match parse_port_list(list.as_str()) {
                Ok(ports) => ports,
                Err(e) => {
                    return Err(concat2("invalid --ports: ", e.as_str()));
                },
            };
            if ports.len() < store_ids.len() {
                let have: String = decimal(ports.len() as u64);
                let need: String = decimal(store_ids.len() as u64);
                let front: String = concat3(
                    "--ports has ",
                    have.as_str(),
                    " ports but --stores needs ",
                );
                return Err(concat2(front.as_str(), need.as_str()));
            }
            ports
        },
        None => any_ports(store_ids.len()),
    };
    Ok(Some(Bootstrap { store_ids, group_ids, replica_id, ports }))
}

fn any_ports(n: usize) -> (ports: Vec<u16>)
    ensures
        ports@ == Seq::new(n as nat, |i: int| 0u16),
{
    let mut ports: Vec<u16> = Vec::new();
    let mut i: usize = 0;
    while i < n
        invariant
            i <= n,
            ports@ == Seq::new(i as nat, |i: int| 0u16),
        decreases n - i,
    {
        ports.push(0);
        proof {
            assert(ports@ =~= Seq::new((i + 1) as nat, |i: int| 0u16));
        }
        i = i + 1;
    }
    ports
}

// ── Laws of lists ────────────────────────────────────────────────
proof fn lemma_span_keeps_distinct(ids: Seq<u64>, a: int, b: int)
    requires
        ids.no_duplicates(),
        0 <= a,
        b <= u64::MAX,
    ensures
        with_span(ids, a, b).no_duplicates(),
        ids.len() <= with_span(ids, a, b).len(),
        forall|i: int| 0 <= i < ids.len() ==> with_span(ids, a, b)[i] == #[trigger] ids[i],
        forall|v: u64| #[trigger]
            with_span(ids, a, b).contains(v) <==> ids.contains(v) || a <= v <= b,
    decreases b - a + 1,
{
    if a <= b {
        lemma_span_keeps_distinct(ids, a, b - 1);
        let front = with_span(ids, a, b - 1);
        let all = with_span(ids, a, b);
        assert forall|v: u64| #[trigger] all.contains(v) <==> ids.contains(v) || a <= v <= b by {
            assert(front.contains(v) <==> ids.contains(v) || a <= v <= b - 1);
            if !front.contains(b as u64) {
                if front.contains(v) {
                    let k = front.index_of(v);
                    assert(all[k] == v);
                }
                if all.contains(v) && v != b as u64 {
                    let k = all.index_of(v);
                    assert(front[k] == v);
                }
                assert(all[front.len() as int] == b as u64);
            }
        }
    }
}

/// No number stands twice in a list that was read.
pub proof fn listed_numbers_are_distinct(parts: Seq<Seq<char>>)
    requires
        listed(parts) is Ok,
    ensures
        (listed(parts)->Ok_0).no_duplicates(),
    decreases parts.len(),
{
    if parts.len() > 0 {
        listed_numbers_are_distinct(parts.drop_last());
        if let PartView::Span(a, b) = part_of(parts.last()) {
            lemma_span_keeps_distinct(listed(parts.drop_last())->Ok_0, a as int, b as int);
        }
    }
}

/// A list that was read holds exactly the numbers that its parts say.
pub proof fn listed_numbers_are_those_of_the_parts(parts: Seq<Seq<char>>, v: u64)
    requires
        listed(parts) is Ok,
    ensures
        (listed(parts)->Ok_0).contains(v) <==> exists|i: int|
            0 <= i < parts.len() && (part_of(#[trigger] parts[i]) matches PartView::Span(a, b) && a
                <= v <= b),
    decreases parts.len(),
{
    if parts.len() > 0 {
        let front = parts.drop_last();
        let last = parts.len() - 1;
        listed_numbers_are_those_of_the_parts(front, v);
        listed_numbers_are_distinct(front);
        if let PartView::Span(a, b) = part_of(parts.last()) {
            lemma_span_keeps_distinct(listed(front)->Ok_0, a as int, b as int);
        }
        if (listed(front)->Ok_0).contains(v) {
            let k = choose|i: int|
                0 <= i < front.len() && (part_of(#[trigger] front[i]) matches PartView::Span(a, b)
                    && a <= v <= b);
            assert(parts[k] == front[k]);
        }
        if exists|i: int|
            0 <= i < parts.len() && (part_of(#[trigger] parts[i]) matches PartView::Span(a, b) && a
                <= v <= b) {
            let k = choose|i: int|
                0 <= i < parts.len() && (part_of(#[trigger] parts[i]) matches PartView::Span(a, b)
                    && a <= v <= b);
            if k < last {
                assert(front[k] == parts[k]);
            }
        }
    }
}

proof fn lemma_halves_of(first: Seq<char>, last: Seq<char>)
    requires
        !first.contains('.'),
        last.len() > 0 ==> last[0] != '.',
    ensures
        halves(first + seq!['.', '.'] + last) == Some((first, last)),
{
    let part = first + seq!['.', '.'] + last;
    let i = first.len() as int;
    assert(part[i] == '.' && part[i + 1] == '.');
    assert forall|k: int| 0 <= k < i implies !(#[trigger] part[k] == '.' && part[k + 1] == '.') by {
        assert(part[k] == first[k]);
        assert(first.contains(first[k]));
    }
    assert(dots_at(part, i));
    let c = choose|c: int| dots_at(part, c);
    assert(dots_at(part, c));
    if i < c {
        assert(!(part[i] == '.' && part[i + 1] == '.'));
    } else if c < i {
        assert(!(part[c] == '.' && part[c + 1] == '.'));
    }
    assert(part.take(i) =~= first);
    assert(part.skip(i + 2) =~= last);
}

proof fn lemma_no_dot(n: nat)
    ensures
        !dec(n).contains('.'),
        !dec(n).contains(','),
{
    written_number_has_only_digits(n);
}

/// A number in a list stands for itself; two numbers with `..` between them
/// stand for all numbers from the first to the second, if the first is less.
pub proof fn written_ranges_are_read(a: u64, b: u64)
    ensures
        part_of(dec(a as nat)) == PartView::Span(a, a),
        a < b ==> part_of(dec(a as nat) + seq!['.', '.'] + dec(b as nat)) == PartView::Span(a, b),
        a >= b ==> part_of(dec(a as nat) + seq!['.', '.'] + dec(b as nat)) is Bad,
{
    let first = dec(a as nat);
    let last = dec(b as nat);
    let range = first + seq!['.', '.'] + last;
    written_number_has_only_digits(a as nat);
    written_number_has_only_digits(b as nat);
    lemma_no_dot(a as nat);
    lemma_no_dot(b as nat);
    decimal_reads_back(a as nat, u64::MAX as nat);
    decimal_reads_back(b as nat, u64::MAX as nat);
    assert(!exists|i: int| dots_at(first, i)) by {
        if exists|i: int| dots_at(first, i) {
            let i = choose|i: int| dots_at(first, i);
            assert(first.contains(first[i]));
        }
    }
    assert(last[0] != '.') by {
        assert(last.contains(last[0]));
    }
    lemma_halves_of(first, last);
    assert(range[0] == first[0]);
    assert(range.last() == last[last.len() - 1]);
    trimmed_text_stays(range);
}

/// A list is read exactly if each of its parts can be: blank, a number, or a
/// range whose first number is less than its last.
pub proof fn list_is_read_if_its_parts_are(parts: Seq<Seq<char>>)
    ensures
        listed(parts) is Ok <==> forall|i: int|
            0 <= i < parts.len() ==> !(part_of(#[trigger] parts[i]) is Bad),
        listed(parts) matches Err(e) ==> exists|i: int|
            0 <= i < parts.len() && part_of(#[trigger] parts[i]) == PartView::Bad(e) && forall|
                j: int,
            |
                0 <= j < i ==> !(part_of(#[trigger] parts[j]) is Bad),
    decreases parts.len(),
{
    if parts.len() > 0 {
        let front = parts.drop_last();
        list_is_read_if_its_parts_are(front);
        assert(parts[parts.len() - 1] == parts.last());
        assert forall|i: int| 0 <= i < front.len() implies front[i] == #[trigger] parts[i] by {}
        match listed(front) {
            Err(e) => {
                let i = choose|i: int|
                    0 <= i < front.len() && part_of(#[trigger] front[i]) == PartView::Bad(e)
                        && forall|j: int| 0 <= j < i ==> !(part_of(#[trigger] front[j]) is Bad);
                assert(part_of(parts[i]) == PartView::Bad(e));
                assert forall|j: int| 0 <= j < i implies !(part_of(#[trigger] parts[j]) is Bad) by {
                    assert(part_of(front[j]) == part_of(parts[j]));
                }
            },
            Ok(_) => {
                assert forall|j: int| 0 <= j < front.len() implies !(
                part_of(#[trigger] parts[j]) is Bad) by {
                    assert(part_of(front[j]) == part_of(parts[j]));
                }
            },
        }
    }
}

/// A single written number is a list of that number.
pub proof fn single_number_is_a_list(n: u64)
    ensures
        id_list(dec(n as nat)) == Ok::<Seq<u64>, Seq<char>>(seq![n]),
{
    let s = dec(n as nat);
    lemma_no_dot(n as nat);
    text_without_separator_is_one_piece(s, ',');
    written_ranges_are_read(n, n);
    let parts = seq![s];
    assert(parts.drop_last() =~= Seq::<Seq<char>>::empty());
    assert(parts.last() == s);
    reveal_with_fuel(listed, 2);
    reveal_with_fuel(with_span, 2);
    assert(!Seq::<u64>::empty().contains(n));
    assert(Seq::<u64>::empty().push(n) =~= seq![n]);
}

/// Numbers are ports exactly if none is above 65535: then each is the port of
/// its place. Otherwise the first that is too large is told.
pub proof fn ports_are_the_numbers(ids: Seq<u64>)
    ensures
        match as_ports(ids) {
            Ok(ports) => ports.len() == ids.len() && forall|i: int|
                0 <= i < ids.len() ==> #[trigger] ports[i] == ids[i],
            Err(v) => v > 65535 && exists|i: int|
                0 <= i < ids.len() && #[trigger] ids[i] == v && forall|j: int|
                    0 <= j < i ==> #[trigger] ids[j] <= 65535,
        },
        (forall|i: int| 0 <= i < ids.len() ==> #[trigger] ids[i] <= 65535) ==> as_ports(ids) is Ok,
    decreases ids.len(),
{
    if ids.len() > 0 {
        let front = ids.drop_last();
        ports_are_the_numbers(front);
        assert(ids[ids.len() - 1] == ids.last());
        assert forall|i: int| 0 <= i < front.len() implies front[i] == #[trigger] ids[i] by {}
        match as_ports(front) {
            Ok(ports) => {
                assert forall|i: int| 0 <= i < front.len() implies #[trigger] ids[i] <= 65535 by {
                    assert(ports[i] == front[i]);
                }
            },
            Err(v) => {
                let i = choose|i: int|
                    0 <= i < front.len() && #[trigger] front[i] == v && forall|j: int|
                        0 <= j < i ==> #[trigger] front[j] <= 65535;
                assert(ids[i] == v);
                assert forall|j: int| 0 <= j < i implies #[trigger] ids[j] <= 65535 by {
                    assert(front[j] == ids[j]);
                }
            },
        }
    }
}

/// Options that name stores are accepted exactly if their lists can be read, the
/// replica is within bounds, and the ports, where they are named, are enough.
/// Every store then has a port, and any free one where none are named.
pub proof fn valid_options_are_accepted(args: Cli)
    ensures
        args.stores is None ==> bootstrap_of(args) == Ok::<Option<BootstrapView>, Seq<char>>(None),
        args.stores matches Some(s) ==> {
            &&& bootstrap_of(args) is Ok <==> {
                &&& id_list(s@) is Ok
                &&& args.groups matches Some(g) ==> id_list(g@) is Ok
                &&& 1 <= args.replica && args.replica <= 128
                &&& args.ports matches Some(p) ==> (port_list(p@) matches Ok(ports) && ports.len()
                    >= (id_list(s@)->Ok_0).len())
            }
            &&& bootstrap_of(args) matches Ok(b) ==> (b matches Some(b) && {
                &&& b.store_ids == id_list(s@)->Ok_0
                &&& b.replica_id == args.replica
                &&& b.ports.len() >= b.store_ids.len()
                &&& args.groups is None ==> b.group_ids.len() == 0
                &&& args.groups matches Some(g) ==> b.group_ids == id_list(g@)->Ok_0
                &&& args.ports is None ==> forall|i: int|
                    0 <= i < b.ports.len() ==> #[trigger] b.ports[i] == 0
            })
        },
{
}

/// A range lists its numbers one by one, from the first to the last.
pub proof fn range_is_listed_in_order(a: u64, b: u64)
    requires
        a <= b,
    ensures
        with_span(Seq::empty(), a as int, b as int) == Seq::new(
            (b - a + 1) as nat,
            |i: int| (a + i) as u64,
        ),
    decreases b - a,
{
    let whole = Seq::new((b - a + 1) as nat, |i: int| (a + i) as u64);
    if a < b {
        let c = (b - 1) as u64;
        range_is_listed_in_order(a, c);
        let front = Seq::new((c - a + 1) as nat, |i: int| (a + i) as u64);
        assert(!front.contains(b));
        assert(whole =~= front.push(b));
    } else {
        reveal_with_fuel(with_span, 2);
        assert(!Seq::<u64>::empty().contains(b));
        assert(whole =~= Seq::<u64>::empty().push(b));
    }
}

} // verus!
