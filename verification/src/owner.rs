//! Which process owns a local port.
//!
//! The operating system answers with raw tables of its connections and with the path of a
//! process's image; what these answers mean is decided here.
use crate::text::{
    after_last, decimal, decimal_reads_back, is_decimal, last_part,
    last_part_is_behind_the_separator, push_decimal, utf16_lossy,
};
use std::collections::HashMap;
use vstd::prelude::*;
use vstd::string::*;

verus! {

broadcast use vstd::std_specs::hash::group_hash_axioms;

// ---------------------------------------------------------------------------------------------
// Tables
// ---------------------------------------------------------------------------------------------

/// A table of the operating system that lists ports and their owners.
#[derive(Clone, Copy, Debug, PartialEq, Eq, Structural)]
pub enum TableKind {
    Tcp4,
    Tcp6,
    Udp4,
    Udp6,
}

/// The bytes of one row.
pub open spec fn row_size(k: TableKind) -> int {
    match k {
        TableKind::Tcp4 => 24,
        TableKind::Tcp6 => 56,
        TableKind::Udp4 => 12,
        TableKind::Udp6 => 28,
    }
}

/// Where the local address stands in a row.
pub open spec fn local_address_at(k: TableKind) -> int {
    match k {
        TableKind::Tcp4 => 4,
        TableKind::Tcp6 => 0,
        TableKind::Udp4 => 0,
        TableKind::Udp6 => 0,
    }
}

/// Where the local port stands in a row.
pub open spec fn local_port_at(k: TableKind) -> int {
    match k {
        TableKind::Tcp4 => 8,
        TableKind::Tcp6 => 20,
        TableKind::Udp4 => 4,
        TableKind::Udp6 => 20,
    }
}

/// Where the owner's process identifier stands in a row.
pub open spec fn owner_at(k: TableKind) -> int {
    match k {
        TableKind::Tcp4 => 20,
        TableKind::Tcp6 => 52,
        TableKind::Udp4 => 8,
        TableKind::Udp6 => 24,
    }
}

/// The number that four bytes make, the first the least significant.
pub open spec fn number_at(b: Seq<u8>, at: int) -> int {
    b[at] + b[at + 1] * 256 + b[at + 2] * 65536 + b[at + 3] * 16777216
}

/// The number that two bytes make, the first the most significant.
pub open spec fn port_at(b: Seq<u8>, at: int) -> int {
    b[at] * 256 + b[at + 1]
}

/// The rows of a table: as many as its first four bytes say, as far as the bytes hold them.
pub open spec fn row_count(k: TableKind, b: Seq<u8>) -> int {
    if b.len() < 4 {
        0
    } else {
        let held = (b.len() - 4) / row_size(k);
        if number_at(b, 0) < held {
            number_at(b, 0)
        } else {
            held
        }
    }
}

/// Where row number `i` begins.
pub open spec fn row_at(k: TableKind, i: int) -> int {
    4 + i * row_size(k)
}

/// The local port of row number `i`.
pub open spec fn row_port(k: TableKind, b: Seq<u8>, i: int) -> int {
    port_at(b, row_at(k, i) + local_port_at(k))
}

/// The process identifier of the owner of row number `i`.
pub open spec fn row_owner(k: TableKind, b: Seq<u8>, i: int) -> int {
    number_at(b, row_at(k, i) + owner_at(k))
}

/// The owner of a port: that of the first row, from number `i` on, that has it.
pub open spec fn port_owner_from(k: TableKind, b: Seq<u8>, port: u16, i: int) -> Option<int>
    decreases row_count(k, b) - i,
{
    if i < 0 || i >= row_count(k, b) {
        None
    } else if row_port(k, b, i) == port {
        Some(row_owner(k, b, i))
    } else {
        port_owner_from(k, b, port, i + 1)
    }
}

/// The owner of a port in a table; there is none where the table could not be read.
pub open spec fn port_owner(k: TableKind, table: Option<Seq<u8>>, port: u16) -> Option<int> {
    match table {
        Some(b) => port_owner_from(k, b, port, 0),
        None => None,
    }
}

/// The bytes of a table that was read.
pub open spec fn table_bytes(table: Option<Vec<u8>>) -> Option<Seq<u8>> {
    match table {
        Some(b) => Some(b@),
        None => None,
    }
}

/// The bytes of one row.
pub fn row_bytes(k: TableKind) -> (r: usize)
    ensures
        r == row_size(k),
{
    match k {
        TableKind::Tcp4 => 24,
        TableKind::Tcp6 => 56,
        TableKind::Udp4 => 12,
        TableKind::Udp6 => 28,
    }
}

/// Where the local port stands in a row.
pub fn local_port_offset(k: TableKind) -> (r: usize)
    ensures
        r == local_port_at(k),
        r + 4 <= row_size(k),
{
    match k {
        TableKind::Tcp4 => 8,
        TableKind::Tcp6 => 20,
        TableKind::Udp4 => 4,
        TableKind::Udp6 => 20,
    }
}

/// Where the owner stands in a row.
pub fn owner_offset(k: TableKind) -> (r: usize)
    ensures
        r == owner_at(k),
        r + 4 <= row_size(k),
{
    match k {
        TableKind::Tcp4 => 20,
        TableKind::Tcp6 => 52,
        TableKind::Udp4 => 8,
        TableKind::Udp6 => 24,
    }
}

/// The number that four bytes make, the first the least significant.
pub fn read_number(b: &Vec<u8>, at: usize) -> (r: u32)
    requires
        at + 4 <= b@.len(),
    ensures
        r == number_at(b@, at as int),
{
    assert(b.len() == b@.len());
    b[at] as u32 + b[at + 1] as u32 * 256 + b[at + 2] as u32 * 65536 + b[at + 3] as u32 * 16777216
}

/// The number that two bytes make, the first the most significant.
pub fn read_port(b: &Vec<u8>, at: usize) -> (r: u16)
    requires
        at + 2 <= b@.len(),
    ensures
        r == port_at(b@, at as int),
{
    assert(b.len() == b@.len());
    b[at] as u16 * 256 + b[at + 1] as u16
}

/// The rows of a table.
pub fn count_rows(k: TableKind, b: &Vec<u8>) -> (r: usize)
    ensures
        r == row_count(k, b@),
{
    let n: usize = b.len();
    if n < 4 {
        return 0;
    }
    let held: usize = (n - 4) / row_bytes(k);
    let said: u32 = read_number(b, 0);
    if (said as u64) < (held as u64) {
        said as usize
    } else {
        held
    }
}

/// A row lies within the bytes of the table.
pub proof fn row_in_bounds(k: TableKind, b: Seq<u8>, i: int)
    requires
        0 <= i < row_count(k, b),
    ensures
        4 <= row_at(k, i),
        row_at(k, i) + row_size(k) <= b.len(),
{
    let size = row_size(k);
    let held = (b.len() - 4) / size;
    assert(i * size + size <= held * size) by (nonlinear_arith)
        requires
            i + 1 <= held,
            size > 0,
    ;
    assert(held * size <= b.len() - 4) by (nonlinear_arith)
        requires
            held == (b.len() - 4) / size,
            size > 0,
    ;
    assert(0 <= i * size) by (nonlinear_arith)
        requires
            0 <= i,
            size > 0,
    ;
}

/// Where row number `i` begins.
pub fn row_offset(k: TableKind, b: &Vec<u8>, i: usize) -> (r: usize)
    requires
        i < row_count(k, b@),
    ensures
        r == row_at(k, i as int),
        r + row_size(k) <= b@.len(),
{
    assert(b.len() == b@.len());
    let size: usize = row_bytes(k);
    proof {
        row_in_bounds(k, b@, i as int);
    }
    4 + i * size
}

/// The owner of a port in a table.
pub fn find_port_owner(k: TableKind, b: &Vec<u8>, port: u16) -> (r: Option<u32>)
    ensures
        match r {
            Some(pid) => port_owner(k, Some(b@), port) == Some(pid as int),
            None => port_owner(k, Some(b@), port) is None,
        },
{
    let n: usize = count_rows(k, b);
    let mut i: usize = 0;
    while i < n
        invariant
            i <= n == row_count(k, b@),
            port_owner_from(k, b@, port, 0) == port_owner_from(k, b@, port, i as int),
        decreases n - i,
    {
        let at: usize = row_offset(k, b, i);
        assert(b.len() == b@.len());
        if read_port(b, at + local_port_offset(k)) == port {
            return Some(read_number(b, at + owner_offset(k)));
        }
        i += 1;
    }
    None
}

/// The owner of a port is that of a row that has the port while no row before it has, and there
/// is none exactly where no row has the port.
pub proof fn port_owner_is_first(k: TableKind, b: Seq<u8>, port: u16)
    ensures
        match port_owner(k, Some(b), port) {
            Some(pid) => exists|i: int|
                0 <= i < row_count(k, b) && #[trigger] row_port(k, b, i) == port && row_owner(k, b, i)
                    == pid && forall|j: int|
                    0 <= j < i ==> #[trigger] row_port(k, b, j) != port,
            None => forall|j: int|
                0 <= j < row_count(k, b) ==> #[trigger] row_port(k, b, j) != port,
        },
{
    first_row_from(k, b, port, 0);
}

proof fn first_row_from(k: TableKind, b: Seq<u8>, port: u16, from: int)
    requires
        0 <= from,
        forall|j: int| 0 <= j < from ==> #[trigger] row_port(k, b, j) != port,
    ensures
        match port_owner_from(k, b, port, from) {
            Some(pid) => exists|i: int|
                0 <= i < row_count(k, b) && #[trigger] row_port(k, b, i) == port && row_owner(k, b, i)
                    == pid && forall|j: int|
                    0 <= j < i ==> #[trigger] row_port(k, b, j) != port,
            None => forall|j: int|
                0 <= j < row_count(k, b) ==> #[trigger] row_port(k, b, j) != port,
        },
    decreases row_count(k, b) - from,
{
    if from < row_count(k, b) && row_port(k, b, from) != port {
        first_row_from(k, b, port, from + 1);
    }
}

// ---------------------------------------------------------------------------------------------
// Process names
// ---------------------------------------------------------------------------------------------

/// The process is the idle process or the system itself, which have no image.
pub open spec fn system_process(pid: u32) -> bool {
    pid == 0 || pid == 4
}

/// The name of a process: that of its image file, or one made from the identifier where the
/// path of the image could not be had.
pub open spec fn process_name(pid: u32, image: Option<Seq<u16>>) -> Seq<char> {
    if system_process(pid) {
        "System"@
    } else {
        match image {
            Some(path) => after_last(utf16_lossy(path), '\\'),
            None => "PID_"@ + decimal(pid as nat),
        }
    }
}

/// The file name at the end of a path.
pub fn image_name(path: &str) -> (r: String)
    ensures
        r@ == after_last(path@, '\\'),
{
    last_part(path, '\\')
}

/// The code units of a path that was read.
pub open spec fn image_units(image: Option<Vec<u16>>) -> Option<Seq<u16>> {
    match image {
        Some(u) => Some(u@),
        None => None,
    }
}

/// The name of a process, given the path of its image.
pub fn get_process_name_for_pid(pid: u32, image: &Option<Vec<u16>>) -> (r: String)
    ensures
        r@ == process_name(pid, image_units(*image)),
{
    if pid == 0 || pid == 4 {
        return "System".to_string();
    }
    match image {
        Some(units) => {
            let path = String::from_utf16_lossy(units.as_slice());
            image_name(path.as_str())
        },
        None => {
            let mut s = "PID_".to_string();
            push_decimal(&mut s, pid as u64);
            s
        },
    }
}

// ---------------------------------------------------------------------------------------------
// Cache
// ---------------------------------------------------------------------------------------------

/// Seconds for which the owner of a port is remembered.
pub const CACHE_SECONDS: u64 = 30;

/// Nanoseconds of a second.
pub const NANOS_PER_SECOND: u64 = 1_000_000_000;

/// The owner of a port, as it was found.
#[derive(Debug, PartialEq, Eq)]
pub struct PidCacheEntry {
    pub pid: u32,
    pub process_name: String,
    /// Nanoseconds of a clock that does not go back.
    pub timestamp: u64,
}

/// The model of a [`PidCacheEntry`].
pub struct CacheView {
    pub pid: u32,
    pub process_name: Seq<char>,
    pub timestamp: u64,
}

impl View for PidCacheEntry {
    type V = CacheView;

    open spec fn view(&self) -> CacheView {
        CacheView {
            pid: self.pid,
            process_name: self.process_name@,
            timestamp: self.timestamp,
        }
    }
}

/// The owners of local ports, as they were found.
pub struct PidCache {
    entries: HashMap<u16, PidCacheEntry>,
}

/// The model of the cache: what is remembered of each port.
impl View for PidCache {
    type V = Map<u16, CacheView>;

    closed spec fn view(&self) -> Map<u16, CacheView> {
        self.entries@.map_values(|e: PidCacheEntry| e@)
    }
}

/// An entry is not too old to be used: fewer whole seconds than the limit have passed.
pub open spec fn fresh(e: CacheView, now: u64) -> bool {
    now < e.timestamp || (now - e.timestamp) / (NANOS_PER_SECOND as int) < CACHE_SECONDS
}

impl PidCache {
    /// An empty cache.
    pub fn new() -> (r: Self)
        ensures
            r@ == Map::<u16, CacheView>::empty(),
    {
        let r = PidCache { entries: HashMap::new() };
        assert(r@ =~= Map::<u16, CacheView>::empty());
        r
    }

    /// What is remembered of a port, of whatever age.
    pub fn get(&self, port: u16) -> (r: Option<(u32, String)>)
        ensures
            match r {
                Some(o) => self@.contains_key(port) && o.0 == self@[port].pid && o.1@
                    == self@[port].process_name,
                None => !self@.contains_key(port),
            },
    {
        match self.entries.get(&port) {
            Some(e) => Some((e.pid, e.process_name.clone())),
            None => None,
        }
    }

    /// What is remembered of a port, if it is not too old.
    pub fn lookup(&self, port: u16, now: u64) -> (r: Option<(u32, String)>)
        ensures
            match r {
                Some(o) => self@.contains_key(port) && fresh(self@[port], now) && o.0
                    == self@[port].pid && o.1@ == self@[port].process_name,
                None => !(self@.contains_key(port) && fresh(self@[port], now)),
            },
    {
        match self.entries.get(&port) {
            Some(e) => {
                let age: u64 = if now < e.timestamp {
                    0
                } else {
                    now - e.timestamp
                };
                if age / NANOS_PER_SECOND < CACHE_SECONDS {
                    Some((e.pid, e.process_name.clone()))
                } else {
                    None
                }
            },
            None => None,
        }
    }

    /// Remembers the owner of a port.
    pub fn store(&mut self, port: u16, pid: u32, process_name: &str, now: u64)
        ensures
            final(self)@ == old(self)@.insert(
                port,
                CacheView { pid, process_name: process_name@, timestamp: now },
            ),
    {
        let e = PidCacheEntry { pid, process_name: process_name.to_string(), timestamp: now };
        self.entries.insert(port, e);
        assert(self@ =~= old(self)@.insert(port, e@));
    }
}

// ---------------------------------------------------------------------------------------------
// Resolution
// ---------------------------------------------------------------------------------------------

/// Where the search for the owner of a port stands: what was asked of the operating system.
#[derive(Debug, PartialEq, Eq)]
pub enum ResolveStage {
    /// The table of version 4.
    FirstTable,
    /// The table of version 6.
    SecondTable,
    /// The image of this process.
    Image(u32),
    /// Nothing: the owner is known.
    Over,
}

/// The search for the owner of a port.
#[derive(Debug, PartialEq, Eq)]
pub struct Resolver {
    pub port: u16,
    pub is_tcp: bool,
    pub stage: ResolveStage,
}

/// What to ask next, or the owner.
#[derive(Debug, PartialEq, Eq)]
pub enum ResolveStep {
    /// Read this table.
    Table(TableKind),
    /// Find the path of the image of this process.
    Image(u32),
    /// The owner's process identifier and name.
    Resolved(u32, String),
}

/// The model of a [`ResolveStep`].
pub enum ResolveView {
    Table(TableKind),
    Image(u32),
    Resolved(u32, Seq<char>),
}

impl View for ResolveStep {
    type V = ResolveView;

    open spec fn view(&self) -> ResolveView {
        match self {
            ResolveStep::Table(k) => ResolveView::Table(*k),
            ResolveStep::Image(p) => ResolveView::Image(*p),
            ResolveStep::Resolved(p, n) => ResolveView::Resolved(*p, n@),
        }
    }
}

/// The table of version 4 for a protocol.
pub open spec fn first_table(is_tcp: bool) -> TableKind {
    if is_tcp {
        TableKind::Tcp4
    } else {
        TableKind::Udp4
    }
}

/// The table of version 6 for a protocol.
pub open spec fn second_table(is_tcp: bool) -> TableKind {
    if is_tcp {
        TableKind::Tcp6
    } else {
        TableKind::Udp6
    }
}

/// The name of an owner that the tables gave: identifier 0 stands for an unknown one.
pub open spec fn owner_name(pid: u32, image: Option<Seq<u16>>) -> Seq<char> {
    if pid > 0 {
        process_name(pid, image)
    } else {
        "Unknown"@
    }
}

/// What follows when the owner's identifier is known: its image is asked for where its name
/// depends on that.
pub open spec fn identified(pid: u32) -> (ResolveStage, ResolveView) {
    if system_process(pid) {
        (ResolveStage::Over, ResolveView::Resolved(pid, owner_name(pid, None)))
    } else {
        (ResolveStage::Image(pid), ResolveView::Image(pid))
    }
}

/// What follows when a table was read, or could not be read.
pub open spec fn after_table(r: Resolver, table: Option<Seq<u8>>) -> (ResolveStage, ResolveView) {
    let kind = if r.stage is FirstTable {
        first_table(r.is_tcp)
    } else {
        second_table(r.is_tcp)
    };
    match port_owner(kind, table, r.port) {
        Some(pid) => identified(pid as u32),
        None => if r.stage is FirstTable {
            (ResolveStage::SecondTable, ResolveView::Table(second_table(r.is_tcp)))
        } else {
            identified(0)
        },
    }
}

/// The cache after a step: an owner that was just found is remembered.
pub open spec fn remembered(
    cache: Map<u16, CacheView>,
    port: u16,
    step: ResolveView,
    now: u64,
) -> Map<u16, CacheView> {
    match step {
        ResolveView::Resolved(pid, process_name) => cache.insert(
            port,
            CacheView { pid, process_name, timestamp: now },
        ),
        _ => cache,
    }
}

impl Resolver {
    /// Begins the search: a fresh entry of the cache answers at once, else the table of version
    /// 4 is read.
    pub fn begin(port: u16, is_tcp: bool, cache: &PidCache, now: u64) -> (r: (
        Resolver,
        ResolveStep,
    ))
        ensures
            r.0.port == port,
            r.0.is_tcp == is_tcp,
            if cache@.contains_key(port) && fresh(cache@[port], now) {
                r.0.stage is Over && r.1@ == ResolveView::Resolved(
                    cache@[port].pid,
                    cache@[port].process_name,
                )
            } else {
                r.0.stage is FirstTable && r.1@ == ResolveView::Table(first_table(is_tcp))
            },
    {
        match cache.lookup(port, now) {
            Some((pid, name)) => (
                Resolver { port, is_tcp, stage: ResolveStage::Over },
                ResolveStep::Resolved(pid, name),
            ),
            None => {
                let kind = if is_tcp {
                    TableKind::Tcp4
                } else {
                    TableKind::Udp4
                };
                (
                    Resolver { port, is_tcp, stage: ResolveStage::FirstTable },
                    ResolveStep::Table(kind),
                )
            },
        }
    }

    /// Goes on when the owner's identifier is known.
    fn identify(&mut self, pid: u32, cache: &mut PidCache, now: u64) -> (r: ResolveStep)
        ensures
            final(self).port == old(self).port,
            final(self).is_tcp == old(self).is_tcp,
            (final(self).stage, r@) == identified(pid),
            final(cache)@ == remembered(old(cache)@, old(self).port, r@, now),
    {
        if pid == 0 {
            cache.store(self.port, 0, "Unknown", now);
            self.stage = ResolveStage::Over;
            ResolveStep::Resolved(0, "Unknown".to_string())
        } else if pid == 4 {
            let name = get_process_name_for_pid(pid, &None);
            cache.store(self.port, pid, name.as_str(), now);
            self.stage = ResolveStage::Over;
            ResolveStep::Resolved(pid, name)
        } else {
            self.stage = ResolveStage::Image(pid);
            ResolveStep::Image(pid)
        }
    }

    /// Goes on with a table that was read, or could not be read.
    pub fn on_table(&mut self, table: &Option<Vec<u8>>, cache: &mut PidCache, now: u64) -> (r:
        ResolveStep)
        requires
            old(self).stage is FirstTable || old(self).stage is SecondTable,
        ensures
            final(self).port == old(self).port,
            final(self).is_tcp == old(self).is_tcp,
            (final(self).stage, r@) == after_table(*old(self), table_bytes(*table)),
            final(cache)@ == remembered(old(cache)@, old(self).port, r@, now),
    {
        let first: bool = match self.stage {
            ResolveStage::FirstTable => true,
            _ => false,
        };
        let kind = if first {
            if self.is_tcp {
                TableKind::Tcp4
            } else {
                TableKind::Udp4
            }
        } else {
            if self.is_tcp {
                TableKind::Tcp6
            } else {
                TableKind::Udp6
            }
        };
        let owner = match table {
            Some(b) => find_port_owner(kind, b, self.port),
            None => None,
        };
        match owner {
            Some(pid) => self.identify(pid, cache, now),
            None => if first {
                self.stage = ResolveStage::SecondTable;
                ResolveStep::Table(
                    if self.is_tcp {
                        TableKind::Tcp6
                    } else {
                        TableKind::Udp6
                    },
                )
            } else {
                self.identify(0, cache, now)
            },
        }
    }

    /// Goes on with the path of the image, or without it where it could not be had.
    pub fn on_image(&mut self, image: &Option<Vec<u16>>, cache: &mut PidCache, now: u64) -> (r:
        ResolveStep)
        requires
            old(self).stage is Image,
        ensures
            final(self).port == old(self).port,
            final(self).is_tcp == old(self).is_tcp,
            final(self).stage is Over,
            r@ == ResolveView::Resolved(
                old(self).stage->0,
                process_name(old(self).stage->0, image_units(*image)),
            ),
            final(cache)@ == remembered(old(cache)@, old(self).port, r@, now),
    {
        let pid: u32 = match self.stage {
            ResolveStage::Image(p) => p,
            _ => 0,
        };
        let name = get_process_name_for_pid(pid, image);
        cache.store(self.port, pid, name.as_str(), now);
        self.stage = ResolveStage::Over;
        ResolveStep::Resolved(pid, name)
    }
}

/// The owner's identifier that the two tables of a protocol give, 0 where neither has the port.
pub open spec fn owner_pid(
    is_tcp: bool,
    port: u16,
    first: Option<Seq<u8>>,
    second: Option<Seq<u8>>,
) -> u32 {
    match port_owner(first_table(is_tcp), first, port) {
        Some(pid) => pid as u32,
        None => match port_owner(second_table(is_tcp), second, port) {
            Some(pid) => pid as u32,
            None => 0,
        },
    }
}

/// What a search that began in the first stage comes to, when the operating system answers with
/// these two tables and this image.
pub open spec fn search(
    r: Resolver,
    first: Option<Seq<u8>>,
    second: Option<Seq<u8>>,
    image: Option<Seq<u16>>,
) -> ResolveView {
    let a = after_table(r, first);
    let b = if a.1 is Table {
        after_table(Resolver { stage: a.0, ..r }, second)
    } else {
        a
    };
    match b.1 {
        ResolveView::Image(pid) => ResolveView::Resolved(pid, process_name(pid, image)),
        other => other,
    }
}

/// A search always comes to an owner: the first table is decisive, the second counts where the
/// first does not have the port, and an owner that neither gives is `Unknown`.
pub proof fn search_finds_owner(
    r: Resolver,
    first: Option<Seq<u8>>,
    second: Option<Seq<u8>>,
    image: Option<Seq<u16>>,
)
    requires
        r.stage is FirstTable,
    ensures
        ({
            let pid = owner_pid(r.is_tcp, r.port, first, second);
            search(r, first, second, image) == ResolveView::Resolved(pid, owner_name(pid, image))
        }),
{
}

/// An owner that was just remembered answers the next search for the same port, while it is
/// fresh, and no other port is affected.
pub proof fn cache_answers(
    cache: Map<u16, CacheView>,
    port: u16,
    other: u16,
    pid: u32,
    name: Seq<char>,
    stored: u64,
    now: u64,
)
    requires
        stored <= now,
        now - stored < CACHE_SECONDS * NANOS_PER_SECOND,
    ensures
        ({
            let after = remembered(cache, port, ResolveView::Resolved(pid, name), stored);
            &&& after.contains_key(port)
            &&& fresh(after[port], now)
            &&& after[port].pid == pid
            &&& after[port].process_name == name
            &&& other != port ==> after.contains_key(other) == cache.contains_key(other)
            &&& other != port && cache.contains_key(other) ==> after[other] == cache[other]
        }),
{
}

// ---------------------------------------------------------------------------------------------
// Laws on rows and names
// ---------------------------------------------------------------------------------------------

/// A table has as many rows as its first four bytes say, the least significant first, or as many
/// as it holds bytes for, if that is less.
pub proof fn rows_are_counted(k: TableKind, b: Seq<u8>)
    ensures
        ({
            let size: int = match k {
                TableKind::Tcp4 => 24,
                TableKind::Tcp6 => 56,
                TableKind::Udp4 => 12,
                TableKind::Udp6 => 28,
            };
            let n = row_count(k, b);
            &&& 0 <= n
            &&& b.len() < 4 ==> n == 0
            &&& b.len() >= 4 ==> {
                let said = b[0] + 256 * b[1] + 65536 * b[2] + 16777216 * b[3];
                &&& n <= said
                &&& 4 + n * size <= b.len()
                &&& n == said || 4 + (n + 1) * size > b.len()
            }
        }),
{
}

/// A row of a table holds its local port with the more significant byte first and the identifier of
/// its owner with the least significant first, each at its place.
pub proof fn rows_are_laid_out(k: TableKind, b: Seq<u8>, i: int)
    ensures
        k is Tcp4 ==> row_port(k, b, i) == b[4 + 24 * i + 8] * 256 + b[4 + 24 * i + 9] && row_owner(
            k,
            b,
            i,
        ) == b[4 + 24 * i + 20] + b[4 + 24 * i + 21] * 256 + b[4 + 24 * i + 22] * 65536 + b[4 + 24
            * i + 23] * 16777216,
        k is Tcp6 ==> row_port(k, b, i) == b[4 + 56 * i + 20] * 256 + b[4 + 56 * i + 21]
            && row_owner(k, b, i) == b[4 + 56 * i + 52] + b[4 + 56 * i + 53] * 256 + b[4 + 56 * i
            + 54] * 65536 + b[4 + 56 * i + 55] * 16777216,
        k is Udp4 ==> row_port(k, b, i) == b[4 + 12 * i + 4] * 256 + b[4 + 12 * i + 5] && row_owner(
            k,
            b,
            i,
        ) == b[4 + 12 * i + 8] + b[4 + 12 * i + 9] * 256 + b[4 + 12 * i + 10] * 65536 + b[4 + 12 * i
            + 11] * 16777216,
        k is Udp6 ==> row_port(k, b, i) == b[4 + 28 * i + 20] * 256 + b[4 + 28 * i + 21]
            && row_owner(k, b, i) == b[4 + 28 * i + 24] + b[4 + 28 * i + 25] * 256 + b[4 + 28 * i
            + 26] * 65536 + b[4 + 28 * i + 27] * 16777216,
{
}

/// The owner of a port is that of the row at a place where that row has the port and none before
/// it does; and there is none where no row has it.
pub proof fn first_row_with_the_port_counts(k: TableKind, b: Seq<u8>, port: u16, i: int)
    requires
        0 <= i <= row_count(k, b),
        forall|j: int| 0 <= j < i ==> #[trigger] row_port(k, b, j) != port,
        i < row_count(k, b) ==> row_port(k, b, i) == port,
    ensures
        i < row_count(k, b) ==> port_owner(k, Some(b), port) == Some(row_owner(k, b, i)),
        i == row_count(k, b) ==> port_owner(k, Some(b), port) is None,
        port_owner(k, None, port) is None,
{
    owner_from(k, b, port, 0, i);
}

/// The search of the rows goes on to the first one that has the port.
proof fn owner_from(k: TableKind, b: Seq<u8>, port: u16, from: int, i: int)
    requires
        0 <= from <= i <= row_count(k, b),
        forall|j: int| from <= j < i ==> #[trigger] row_port(k, b, j) != port,
        i < row_count(k, b) ==> row_port(k, b, i) == port,
    ensures
        port_owner_from(k, b, port, from) == (if i < row_count(k, b) {
            Some(row_owner(k, b, i))
        } else {
            None
        }),
    decreases i - from,
{
    if from < i {
        assert(row_port(k, b, from) != port);
        owner_from(k, b, port, from + 1, i);
    }
}

/// Processes 0 and 4 are the system. Any other one is named by its identifier in decimal where the
/// path of its image is missing, and else by what stands behind the last backslash of that path.
pub proof fn processes_are_named_by_their_image(pid: u32, path: Seq<u16>)
    ensures
        pid == 0 || pid == 4 ==> process_name(pid, Some(path)) == "System"@ && process_name(
            pid,
            None,
        ) == "System"@,
        pid != 0 && pid != 4 ==> exists|digits: Seq<char>|
            is_decimal(digits, pid as int) && process_name(pid, None) == #[trigger] ("PID_"@
                + digits),
        pid != 0 && pid != 4 ==> {
            let text = utf16_lossy(path);
            let name = process_name(pid, Some(path));
            &&& !name.contains('\\')
            &&& name.len() <= text.len()
            &&& name == text.skip(text.len() - name.len())
            &&& name.len() < text.len() ==> text[text.len() - name.len() - 1] == '\\'
        },
{
    if pid != 0 && pid != 4 {
        let digits = decimal(pid as nat);
        decimal_reads_back(pid as nat);
        assert(process_name(pid, None) == "PID_"@ + digits);
        last_part_is_behind_the_separator(utf16_lossy(path), '\\');
    }
}

/// What is remembered is fresh for less than thirty seconds, and no longer.
pub proof fn owners_are_fresh_for_thirty_seconds(e: CacheView, now: u64)
    ensures
        fresh(e, now) <==> now < e.timestamp + 30_000_000_000,
{
}

/// A port of TCP is sought in the tables of TCP and one of UDP in those of UDP, that of version 4
/// first. The owner is that of the first table that has the port; its name is that of its image,
/// and `Unknown` where neither table has the port or the owner is process 0.
pub proof fn owners_come_from_the_tables_of_the_protocol(
    r: Resolver,
    first: Option<Seq<u8>>,
    second: Option<Seq<u8>>,
    image: Option<Seq<u16>>,
)
    requires
        r.stage is FirstTable,
    ensures
        first_table(true) is Tcp4 && second_table(true) is Tcp6,
        first_table(false) is Udp4 && second_table(false) is Udp6,
        ({
            let a = port_owner(
                if r.is_tcp {
                    TableKind::Tcp4
                } else {
                    TableKind::Udp4
                },
                first,
                r.port,
            );
            let b = port_owner(
                if r.is_tcp {
                    TableKind::Tcp6
                } else {
                    TableKind::Udp6
                },
                second,
                r.port,
            );
            let found = search(r, first, second, image);
            let pid: int = match a {
                Some(p) => p as u32 as int,
                None => match b {
                    Some(p) => p as u32 as int,
                    None => 0,
                },
            };
            &&& found matches ResolveView::Resolved(p, name)
            &&& p == pid
            &&& pid == 0 ==> name == "Unknown"@
            &&& pid != 0 ==> name == process_name(p, image)
        }),
{
}

/// Only an owner that was found is remembered, with the time at which it was found.
pub proof fn only_owners_are_remembered(
    cache: Map<u16, CacheView>,
    port: u16,
    step: ResolveView,
    now: u64,
)
    ensures
        !(step is Resolved) ==> remembered(cache, port, step, now) == cache,
        step matches ResolveView::Resolved(pid, name) ==> {
            let after = remembered(cache, port, step, now);
            &&& after.dom() == cache.dom().insert(port)
            &&& after[port].pid == pid
            &&& after[port].process_name == name
            &&& after[port].timestamp == now
            &&& forall|other: u16|
                other != port && cache.dom().contains(other) ==> #[trigger] after[other]
                    == cache[other]
        },
{
    if step is Resolved {
        assert(remembered(cache, port, step, now).dom() =~= cache.dom().insert(port));
    }
}

/// The models of cache entries and steps, of tables and of paths, tell all of them.
pub proof fn owner_models_are_whole(
    e: PidCacheEntry,
    step: ResolveStep,
    table: Option<Vec<u8>>,
    image: Option<Vec<u16>>,
)
    ensures
        e@.pid == e.pid,
        e@.process_name == e.process_name@,
        e@.timestamp == e.timestamp,
        step matches ResolveStep::Table(k) ==> step@ == ResolveView::Table(k),
        step matches ResolveStep::Image(p) ==> step@ == ResolveView::Image(p),
        step matches ResolveStep::Resolved(p, n) ==> step@ == ResolveView::Resolved(p, n@),
        table is None <==> table_bytes(table) is None,
        table matches Some(b) ==> table_bytes(table) == Some(b@),
        image is None <==> image_units(image) is None,
        image matches Some(u) ==> image_units(image) == Some(u@),
{
}

}
