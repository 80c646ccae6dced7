//! What the library decides about a backend, from what the backend reports.
//!
//! A runtime owns devices, buffers and kernels. What is decided about them - whether an
//! element type can be used, how wide a launch is, what a failure says, which metadata
//! buffers are kept - is decided here, on plain values.

use vstd::prelude::*;

use crate::error::{Error, Fault};
use crate::text::{append_decimal, comes_before};

verus! {

/// Numeric kind of a tensor's elements.
#[derive(Debug, Clone, Copy, PartialEq, Eq, Structural, Hash)]
pub enum DType {
    /// Binary, thirty-two bits.
    F32,
    /// Binary, sixteen bits.
    F16,
    /// Sixteen bits with the exponent range of thirty-two.
    BF16,
}

impl DType {
    pub open spec fn bytes(self) -> usize {
        match self {
            DType::F32 => 4,
            DType::F16 => 2,
            DType::BF16 => 2,
        }
    }

    pub open spec fn text(self) -> Seq<char> {
        match self {
            DType::F32 => "f32"@,
            DType::F16 => "f16"@,
            DType::BF16 => "bf16"@,
        }
    }

    /// Size of one element in bytes.
    pub fn size(&self) -> (r: usize)
        ensures
            r == self.bytes(),
    {
        match self {
            DType::F32 => 4,
            DType::F16 | DType::BF16 => 2,
        }
    }

    /// Short name used in checkpoints.
    pub fn name(&self) -> (r: &'static str)
        ensures
            r@ == self.text(),
    {
        match self {
            DType::F32 => "f32",
            DType::F16 => "f16",
            DType::BF16 => "bf16",
        }
    }
}

/// What a runtime says an element type can be used for.
#[derive(Debug, Clone, Copy, PartialEq, Eq, Structural)]
pub struct Usage {
    /// In a buffer.
    pub buffer: bool,
    /// In arithmetic.
    pub arithmetic: bool,
    /// In conversions to and from single precision.
    pub conversion: bool,
}

/// What a runtime reports of itself.
pub struct Capabilities {
    /// The name of the runtime.
    pub name: String,
    pub half: Usage,
    pub brain: Usage,
}

pub open spec fn all_uses(u: Usage) -> bool {
    u.buffer && u.arithmetic && u.conversion
}

/// Whether elements of a kind can be stored and computed with: single precision always
/// can.
pub open spec fn supported(c: Capabilities, dtype: DType) -> bool {
    match dtype {
        DType::F32 => true,
        DType::F16 => all_uses(c.half),
        DType::BF16 => all_uses(c.brain),
    }
}

pub fn supports_dtype(c: &Capabilities, dtype: DType) -> (r: bool)
    ensures
        r == supported(*c, dtype),
{
    let u = match dtype {
        DType::F32 => {
            return true;
        },
        DType::F16 => c.half,
        DType::BF16 => c.brain,
    };
    u.buffer && u.arithmetic && u.conversion
}

pub open spec fn dtype_message(c: Capabilities, dtype: DType) -> Seq<char> {
    "the "@ + c.name@ + " backend cannot store or compute "@ + dtype.text()
        + " elements; use f32"@ + (if dtype == DType::BF16 && supported(c, DType::F16) {
        " or f16"@
    } else {
        ""@
    }) + ", or build for a backend that supports them (the cpu runtime does)"@
}

/// [`supports_dtype`] as an error that says what to do instead.
pub fn ensure_dtype(c: &Capabilities, dtype: DType) -> (r: Result<(), Error>)
    ensures
        match r {
            Ok(_) => supported(*c, dtype),
            Err(e) => !supported(*c, dtype) && e@ == Fault::Unsupported(dtype_message(*c, dtype)),
        },
{
    if supports_dtype(c, dtype) {
        return Ok(());
    }
    let mut text = String::new();
    text.append("the ");
    text.append(c.name.as_str());
    text.append(" backend cannot store or compute ");
    text.append(dtype.name());
    text.append(" elements; use f32");
    if dtype == DType::BF16 && supports_dtype(c, DType::F16) {
        text.append(" or f16");
    } else {
        text.append("");
    }
    text.append(", or build for a backend that supports them (the cpu runtime does)");
    proof {
        assert(text@ =~= dtype_message(*c, dtype));
    }
    Err(Error::Unsupported(text))
}

// -- failures ----------------------------------------------------------------------------

/// What a runtime reports when a launch fails.
pub enum Failure {
    /// Several failures, parked until someone asked.
    Several(Vec<Failure>),
    /// A kernel that does not compile, with the compiler's words.
    Compilation(String),
    /// Anything that comes with a reason.
    Other(String),
}

/// A text and how often it was reported.
pub open spec fn counted(text: Seq<char>, n: nat) -> Seq<char> {
    if n == 1 {
        text
    } else {
        text + " (reported by "@ + crate::text::decimal(n) + " launches)"@
    }
}

/// How often a text occurs among the first `n`.
pub open spec fn occurrences(texts: Seq<Seq<char>>, text: Seq<char>, n: nat) -> nat
    decreases n,
{
    if n == 0 {
        0
    } else {
        occurrences(texts, text, (n - 1) as nat) + if texts[n - 1] == text {
            1nat
        } else {
            0nat
        }
    }
}

/// The distinct texts among the first `n`, in the order they were first seen.
pub open spec fn distinct(texts: Seq<Seq<char>>, n: nat) -> Seq<Seq<char>>
    decreases n,
{
    if n == 0 {
        Seq::empty()
    } else {
        let seen = distinct(texts, (n - 1) as nat);
        if seen.contains(texts[n - 1]) {
            seen
        } else {
            seen.push(texts[n - 1])
        }
    }
}

/// The first `n` distinct texts with their counts, joined.
pub open spec fn summary(texts: Seq<Seq<char>>, seen: Seq<Seq<char>>, n: nat) -> Seq<char>
    decreases n,
{
    if n == 0 {
        Seq::empty()
    } else {
        let part = counted(seen[n - 1], occurrences(texts, seen[n - 1], texts.len()));
        if n == 1 {
            part
        } else {
            summary(texts, seen, (n - 1) as nat) + "; "@ + part
        }
    }
}

/// What a failure says: a kernel that fails at every launch is reported once, with the
/// number of launches.
pub open spec fn reason_of(f: Failure) -> Seq<char>
    decreases f,
{
    match f {
        Failure::Several(list) => {
            let texts = reasons(list@);
            let seen = distinct(texts, texts.len());
            summary(texts, seen, seen.len())
        },
        Failure::Compilation(m) => "kernel compilation failed: "@ + m@,
        Failure::Other(m) => m@,
    }
}

/// What every failure of a list says.
pub open spec fn reasons(list: Seq<Failure>) -> Seq<Seq<char>>
    decreases list,
{
    Seq::new(
        list.len(),
        |i: int|
            if 0 <= i < list.len() {
                reason_of(list[i])
            } else {
                Seq::empty()
            },
    )
}

pub open spec fn views(s: Seq<String>) -> Seq<Seq<char>> {
    s.map_values(|t: String| t@)
}

fn position(list: &Vec<String>, text: &String) -> (r: Option<usize>)
    ensures
        match r {
            Some(i) => i < list@.len() && list@[i as int]@ == text@,
            None => !views(list@).contains(text@),
        },
{
    let mut i: usize = 0;
    while i < list.len()
        invariant
            i <= list@.len(),
            forall|k: int| 0 <= k < i ==> (#[trigger] list@[k])@ != text@,
        decreases list@.len() - i,
    {
        if list[i].eq(text) {
            return Some(i);
        }
        i += 1;
    }
    proof {
        assert forall|k: int| 0 <= k < list@.len() implies views(list@)[k] != text@ by {
            assert(list@[k]@ != text@);
        }
    }
    None
}

/// The distinct texts of a list, in the order they were first seen.
fn distinct_texts(texts: &Vec<String>) -> (r: Vec<String>)
    ensures
        views(r@) == distinct(views(texts@), texts@.len()),
{
    let mut out: Vec<String> = Vec::new();
    let mut i: usize = 0;
    proof {
        assert(views(out@) =~= Seq::<Seq<char>>::empty());
    }
    while i < texts.len()
        invariant
            i <= texts@.len(),
            views(out@) == distinct(views(texts@), i as nat),
        decreases texts@.len() - i,
    {
        proof {
            assert(views(texts@)[i as int] == texts@[i as int]@);
        }
        match position(&out, &texts[i]) {
            Some(k) => {
                proof {
                    assert(views(out@)[k as int] == texts@[i as int]@);
                }
            },
            None => {
                let ghost before = views(out@);
                out.push(texts[i].clone());
                proof {
                    assert(views(out@) =~= before.push(texts@[i as int]@));
                }
            },
        }
        i += 1;
    }
    out
}

fn count_of(texts: &Vec<String>, text: &String) -> (r: usize)
    ensures
        r == occurrences(views(texts@), text@, texts@.len()),
{
    let mut n: usize = 0;
    let mut i: usize = 0;
    while i < texts.len()
        invariant
            i <= texts@.len(),
            n <= i,
            n == occurrences(views(texts@), text@, i as nat),
        decreases texts@.len() - i,
    {
        proof {
            assert(views(texts@)[i as int] == texts@[i as int]@);
        }
        if texts[i].eq(text) {
            n += 1;
        }
        i += 1;
    }
    n
}

fn joined(texts: &Vec<String>) -> (r: String)
    ensures
        r@ == ({
            let seen = distinct(views(texts@), texts@.len());
            summary(views(texts@), seen, seen.len())
        }),
{
    let seen = distinct_texts(texts);
    let ghost names = distinct(views(texts@), texts@.len());
    let mut text = String::new();
    let mut i: usize = 0;
    proof {
        assert(text@ =~= Seq::<char>::empty());
    }
    while i < seen.len()
        invariant
            i <= seen@.len(),
            names == views(seen@),
            names == distinct(views(texts@), texts@.len()),
            text@ == summary(views(texts@), names, i as nat),
        decreases seen@.len() - i,
    {
        let ghost before = text@;
        proof {
            assert(names[i as int] == seen@[i as int]@);
        }
        if i > 0 {
            text.append("; ");
        }
        let n: usize = count_of(texts, &seen[i]);
        text.append(seen[i].as_str());
        if n != 1 {
            text.append(" (reported by ");
            append_decimal(&mut text, n as u64);
            text.append(" launches)");
        }
        proof {
            assert(text@ =~= summary(views(texts@), names, i as nat + 1));
        }
        i += 1;
    }
    text
}

/// A runtime failure as the part a caller can act on.
pub fn launch_error(f: &Failure) -> (r: String)
    ensures
        r@ == reason_of(*f),
    decreases *f,
{
    match f {
        Failure::Several(list) => {
            let mut texts: Vec<String> = Vec::new();
            let mut i: usize = 0;
            while i < list.len()
                invariant
                    i <= list@.len(),
                    *f == Failure::Several(*list),
                    texts@.len() == i,
                    forall|k: int|
                        0 <= k < i ==> (#[trigger] texts@[k])@ == reason_of(list@[k]),
                decreases list@.len() - i,
            {
                proof {
                    assert(decreases_to!(*f => (*f)->Several_0));
                    assert(decreases_to!(*list => list@));
                    assert(decreases_to!(list@ => list@[i as int]));
                }
                let t = launch_error(&list[i]);
                texts.push(t);
                i += 1;
            }
            proof {
                assert(views(texts@) =~= reasons(list@));
            }
            joined(&texts)
        },
        Failure::Compilation(m) => {
            let mut text = String::new();
            text.append("kernel compilation failed: ");
            text.append(m.as_str());
            proof {
                assert(text@ =~= "kernel compilation failed: "@ + m@);
            }
            text
        },
        Failure::Other(m) => m.clone(),
    }
}

// -- launch geometry ---------------------------------------------------------------------

/// The largest extent of a grid along its first axis.
pub const MAX_GROUPS: u32 = 32768;

/// Ceiling on the units per cube on a runtime without hardware planes.
pub const ELEMWISE_CUBE_DIM: u32 = 64;

/// Element operations one unit should be worth before another unit is asked for, where
/// a unit is a thread.
pub const WORK_PER_CPU_UNIT: usize = 32768;

/// The quotient rounded up.
pub open spec fn ceiling(a: int, b: int) -> int {
    (a + b - 1) / b
}

/// The groups that cover a number of items.
pub open spec fn groups_for(num_elems: int, cube_dim: int) -> int {
    let g = ceiling(num_elems, cube_dim);
    if g < 1 {
        1
    } else {
        g
    }
}

/// Choose a cube count that covers `num_elems` items with `cube_dim` units each; what
/// exceeds the first axis is folded into the second.
pub fn cube_count_for(num_elems: usize, cube_dim: u32) -> (r: (u32, u32, u32))
    requires
        cube_dim > 0,
        groups_for(num_elems as int, cube_dim as int) <= u32::MAX,
    ensures
        ({
            let g = groups_for(num_elems as int, cube_dim as int);
            r == if g <= MAX_GROUPS {
                (g as u32, 1u32, 1u32)
            } else {
                (MAX_GROUPS, ceiling(g, MAX_GROUPS as int) as u32, 1u32)
            }
        }),
        // Every item has a unit.
        num_elems <= r.0 * r.1 * cube_dim,
{
    let d: u64 = cube_dim as u64;
    let n: u64 = num_elems as u64;
    let q: u64 = n / d;
    proof {
        assert(n % d != 0 ==> q < n) by (nonlinear_arith)
            requires
                d > 0,
                q == n / d,
        ;
    }
    let full: u64 = if n % d == 0 {
        q
    } else {
        q + 1
    };
    proof {
        lemma_ceiling(n as int, d as int);
    }
    let groups: u32 = if full == 0 {
        1
    } else {
        full as u32
    };
    proof {
        lemma_ceiling(groups as int, MAX_GROUPS as int);
        lemma_covers(n as int, d as int);
        let (g, c) = (groups as int, cube_dim as int);
        assert(g * 1 * c == g * c) by (nonlinear_arith);
        assert(g * c >= n) by (nonlinear_arith)
            requires
                full * c >= n,
                g >= full,
                c > 0,
        ;
    }
    if groups <= MAX_GROUPS {
        (groups, 1, 1)
    } else {
        let y: u32 = if groups % MAX_GROUPS == 0 {
            groups / MAX_GROUPS
        } else {
            groups / MAX_GROUPS + 1
        };
        proof {
            let (g, c, m, k) = (groups as int, cube_dim as int, MAX_GROUPS as int, y as int);
            lemma_covers(g, m);
            lemma_ceiling(g, m);
            assert(k == ceiling(g, m));
            assert(m * k * c >= g * c) by (nonlinear_arith)
                requires
                    k * m >= g,
                    c > 0,
            ;
        }
        (MAX_GROUPS, y, 1)
    }
}

proof fn lemma_ceiling(n: int, d: int)
    requires
        n >= 0,
        d > 0,
    ensures
        ceiling(n, d) == if n % d == 0 {
            n / d
        } else {
            n / d + 1
        },
{
    vstd::arithmetic::div_mod::lemma_fundamental_div_mod(n, d);
    let (q, r) = (n / d, n % d);
    if r == 0 {
        assert(n + d - 1 == q * d + (d - 1)) by (nonlinear_arith)
            requires
                n == d * q + r,
                r == 0,
        ;
        vstd::arithmetic::div_mod::lemma_fundamental_div_mod_converse(n + d - 1, d, q, d - 1);
    } else {
        assert(n + d - 1 == (q + 1) * d + (r - 1)) by (nonlinear_arith)
            requires
                n == d * q + r,
        ;
        vstd::arithmetic::div_mod::lemma_fundamental_div_mod_converse(n + d - 1, d, q + 1, r - 1);
    }
}

proof fn lemma_covers(n: int, d: int)
    requires
        n >= 0,
        d > 0,
    ensures
        ceiling(n, d) * d >= n,
        ceiling(n, d) >= 0,
{
    lemma_ceiling(n, d);
    vstd::arithmetic::div_mod::lemma_fundamental_div_mod(n, d);
    let (q, r) = (n / d, n % d);
    assert(q >= 0) by (nonlinear_arith)
        requires
            n == d * q + r,
            n >= 0,
            0 <= r < d,
    ;
    assert(q * d + r == n && (q + 1) * d == q * d + d) by (nonlinear_arith)
        requires
            n == d * q + r,
    ;
}

pub open spec fn at_least_one(n: int) -> int {
    if n < 1 {
        1
    } else {
        n
    }
}

pub open spec fn smaller(a: int, b: int) -> int {
    if a < b {
        a
    } else {
        b
    }
}

/// The work of a launch, held at the largest word.
pub open spec fn total_work(lanes: int, work_per_lane: int) -> int {
    smaller(lanes * at_least_one(work_per_lane), usize::MAX as int)
}

/// How many units a launch is worth on a runtime where every unit is a thread: one per
/// so many element operations, no more than there are cores or lanes, and never more
/// than the ceiling.
pub open spec fn cpu_units(cores: Option<u32>, lanes: int, work_per_lane: int) -> int {
    let width = smaller(
        match cores {
            Some(c) => at_least_one(c as int),
            None => 1,
        },
        at_least_one(lanes),
    );
    let wanted = total_work(lanes, work_per_lane) / WORK_PER_CPU_UNIT as int;
    smaller(
        if wanted < 1 {
            1
        } else {
            smaller(wanted, width)
        },
        ELEMWISE_CUBE_DIM as int,
    )
}

/// The cube width for a launch on a runtime without hardware planes.
pub fn cpu_cube_dim(cores: Option<u32>, lanes: usize, work_per_lane: usize) -> (r: u32)
    ensures
        r == cpu_units(cores, lanes as int, work_per_lane as int),
        1 <= r <= ELEMWISE_CUBE_DIM,
{
    let c: usize = match cores {
        Some(n) => if n < 1 {
            1
        } else {
            n as usize
        },
        None => 1,
    };
    let l: usize = if lanes < 1 {
        1
    } else {
        lanes
    };
    let w: usize = if work_per_lane < 1 {
        1
    } else {
        work_per_lane
    };
    let total: usize = match lanes.checked_mul(w) {
        Some(t) => t,
        None => usize::MAX,
    };
    let width: usize = if c < l {
        c
    } else {
        l
    };
    let wanted: usize = total / WORK_PER_CPU_UNIT;
    let units: usize = if wanted < 1 {
        1
    } else if wanted < width {
        wanted
    } else {
        width
    };
    if units < ELEMWISE_CUBE_DIM as usize {
        units as u32
    } else {
        ELEMWISE_CUBE_DIM
    }
}

/// The first of the widths a device likes that divides a number of elements; one if
/// there is none.
pub open spec fn widest(widths: Seq<usize>, num_elems: usize, n: nat) -> usize
    decreases widths.len() - n,
{
    if n >= widths.len() {
        1
    } else if widths[n as int] != 0 && num_elems % widths[n as int] == 0 {
        widths[n as int]
    } else {
        widest(widths, num_elems, n + 1)
    }
}

/// The vector width for a flat buffer. The count must divide exactly, because a partial
/// trailing vector would read past the buffer.
pub fn line_size_for(widths: &Vec<usize>, num_elems: usize) -> (r: usize)
    ensures
        r == if num_elems == 0 {
            1
        } else {
            widest(widths@, num_elems, 0)
        },
        r > 0,
        num_elems % r == 0,
{
    if num_elems == 0 {
        return 1;
    }
    let mut i: usize = 0;
    while i < widths.len()
        invariant
            i <= widths@.len(),
            num_elems != 0,
            widest(widths@, num_elems, 0) == widest(widths@, num_elems, i as nat),
        decreases widths@.len() - i,
    {
        let w: usize = widths[i];
        if w != 0 && num_elems % w == 0 {
            return w;
        }
        i += 1;
    }
    1
}

// -- meters ------------------------------------------------------------------------------

/// One row of a tally: a call site and how many launches it issued.
pub struct Site {
    pub name: String,
    pub count: usize,
}

impl View for Site {
    type V = (Seq<char>, usize);

    open spec fn view(&self) -> (Seq<char>, usize) {
        (self.name@, self.count)
    }
}

pub open spec fn site_rows(s: Seq<Site>) -> Seq<(Seq<char>, usize)> {
    s.map_values(|r: Site| r@)
}

/// What the meters show.
pub struct Gauge {
    pub launches: usize,
    pub reads: usize,
    pub recording: bool,
    /// Rows in the order their sites were first seen; none before a tally was started.
    pub tally: Option<Seq<(Seq<char>, usize)>>,
}

/// Launch and read counters, and the tally of launches by call site.
pub struct Meters {
    launches: usize,
    reads: usize,
    recording: bool,
    tally: Option<Vec<Site>>,
}

impl View for Meters {
    type V = Gauge;

    closed spec fn view(&self) -> Gauge {
        Gauge {
            launches: self.launches,
            reads: self.reads,
            recording: self.recording,
            tally: match self.tally {
                Some(rows) => Some(site_rows(rows@)),
                None => None,
            },
        }
    }
}

/// A tally with one more launch charged to a site.
pub open spec fn charged(rows: Seq<(Seq<char>, usize)>, site: Seq<char>) -> Seq<(Seq<char>, usize)>
    decreases rows.len(),
{
    if rows.len() == 0 {
        seq![(site, 1usize)]
    } else if rows[0].0 == site {
        seq![(site, if rows[0].1 < usize::MAX { (rows[0].1 + 1) as usize } else { 0 })]
            + rows.drop_first()
    } else {
        seq![rows[0]] + charged(rows.drop_first(), site)
    }
}

pub open spec fn stepped(n: usize) -> usize {
    if n < usize::MAX {
        (n + 1) as usize
    } else {
        0
    }
}

/// Whether a row of a tally is shown before another: larger counts first, and among
/// equal counts in dictionary order of the sites.
pub open spec fn shown_before(a: (Seq<char>, usize), b: (Seq<char>, usize)) -> bool {
    a.1 > b.1 || (a.1 == b.1 && crate::text::precedes(a.0, b.0))
}

fn row_before(a: &Site, b: &Site) -> (r: bool)
    ensures
        r == shown_before(a@, b@),
{
    a.count > b.count || (a.count == b.count && comes_before(a.name.as_str(), b.name.as_str()))
}

pub open spec fn in_order(rows: Seq<(Seq<char>, usize)>) -> bool {
    forall|i: int, j: int|
        0 <= i < j < rows.len() ==> !shown_before(#[trigger] rows[j], #[trigger] rows[i])
}

impl Meters {
    pub fn new() -> (r: Self)
        ensures
            r@ == (Gauge { launches: 0, reads: 0, recording: false, tally: None }),
    {
        Meters { launches: 0, reads: 0, recording: false, tally: None }
    }

    /// Kernel launches issued so far.
    pub fn launch_count(&self) -> (r: usize)
        ensures
            r == self@.launches,
    {
        self.launches
    }

    /// Set [`Meters::launch_count`] back to zero.
    pub fn reset_launch_count(&mut self)
        ensures
            final(self)@ == (Gauge { launches: 0, ..old(self)@ }),
    {
        self.launches = 0;
    }

    /// Device-to-host reads issued so far.
    pub fn read_count(&self) -> (r: usize)
        ensures
            r == self@.reads,
    {
        self.reads
    }

    /// Set [`Meters::read_count`] back to zero.
    pub fn reset_read_count(&mut self)
        ensures
            final(self)@ == (Gauge { reads: 0, ..old(self)@ }),
    {
        self.reads = 0;
    }

    /// Record a device-to-host read.
    pub fn count_read(&mut self)
        ensures
            final(self)@ == (Gauge { reads: stepped(old(self)@.reads), ..old(self)@ }),
    {
        self.reads = if self.reads < usize::MAX {
            self.reads + 1
        } else {
            0
        };
    }

    /// Begin attributing launches to their call sites, discarding any previous tally.
    pub fn start_launch_tally(&mut self)
        ensures
            final(self)@ == (Gauge { recording: true, tally: Some(Seq::empty()), ..old(self)@ }),
    {
        self.tally = Some(Vec::new());
        self.recording = true;
        proof {
            assert(site_rows(self.tally->Some_0@) =~= Seq::<(Seq<char>, usize)>::empty());
        }
    }

    /// Stop attributing launches. The tally collected so far stays readable.
    pub fn stop_launch_tally(&mut self)
        ensures
            final(self)@ == (Gauge { recording: false, ..old(self)@ }),
    {
        self.recording = false;
    }

    /// Forget every recorded site, leaving the tally recording if it already was.
    pub fn reset_launch_tally(&mut self)
        ensures
            final(self)@ == (Gauge {
                tally: match old(self)@.tally {
                    Some(_) => Some(Seq::empty()),
                    None => None,
                },
                ..old(self)@
            }),
    {
        if self.tally.is_some() {
            self.tally = Some(Vec::new());
            proof {
                assert(site_rows(self.tally->Some_0@) =~= Seq::<(Seq<char>, usize)>::empty());
            }
        }
    }

    /// Record a launch from a call site.
    pub fn count_launch(&mut self, site: &str)
        ensures
            final(self)@ == (Gauge {
                launches: stepped(old(self)@.launches),
                tally: if old(self)@.recording {
                    match old(self)@.tally {
                        Some(rows) => Some(charged(rows, site@)),
                        None => None,
                    }
                } else {
                    old(self)@.tally
                },
                ..old(self)@
            }),
    {
        self.launches = if self.launches < usize::MAX {
            self.launches + 1
        } else {
            0
        };
        if self.recording {
            let mut held: Option<Vec<Site>> = None;
            std::mem::swap(&mut held, &mut self.tally);
            match held {
                Some(rows) => {
                    let next = charge(rows, site);
                    self.tally = Some(next);
                },
                None => {},
            }
        }
    }

    /// Launches recorded since the tally was started, the busiest site first; ties are
    /// in dictionary order, so that a printed tally is stable.
    pub fn launch_tally(&self) -> (r: Vec<Site>)
        ensures
            in_order(site_rows(r@)),
            site_rows(r@).to_multiset() == match self@.tally {
                Some(rows) => rows.to_multiset(),
                None => Seq::<(Seq<char>, usize)>::empty().to_multiset(),
            },
    {
        let mut out: Vec<Site> = Vec::new();
        proof {
            assert(site_rows(out@) =~= Seq::<(Seq<char>, usize)>::empty());
        }
        match &self.tally {
            None => {},
            Some(rows) => {
                let mut i: usize = 0;
                proof {
                    assert(site_rows(rows@).take(0) =~= Seq::<(Seq<char>, usize)>::empty());
                }
                while i < rows.len()
                    invariant
                        i <= rows@.len(),
                        in_order(site_rows(out@)),
                        site_rows(out@).to_multiset() == site_rows(rows@).take(
                            i as int,
                        ).to_multiset(),
                    decreases rows@.len() - i,
                {
                    let row = Site { name: rows[i].name.clone(), count: rows[i].count };
                    let ghost before = site_rows(out@);
                    out = placed(out, row);
                    proof {
                        let all = site_rows(rows@);
                        assert(all.take(i as int + 1) =~= all.take(i as int).push(all[i as int]));
                        vstd::seq_lib::to_multiset_build(all.take(i as int), all[i as int]);
                        assert(row@ == all[i as int]);
                    }
                    i += 1;
                }
                proof {
                    assert(site_rows(rows@).take(rows@.len() as int) =~= site_rows(rows@));
                }
            },
        }
        out
    }
}

/// A list in order with one more row in its place.
fn placed(list: Vec<Site>, row: Site) -> (r: Vec<Site>)
    requires
        in_order(site_rows(list@)),
    ensures
        in_order(site_rows(r@)),
        site_rows(r@).to_multiset() == site_rows(list@).to_multiset().insert(row@),
{
    let ghost old_rows = site_rows(list@);
    let mut at: usize = list.len();
    while at > 0 && row_before(&row, &list[at - 1])
        invariant
            at <= list@.len(),
            forall|k: int| at <= k < list@.len() ==> shown_before(row@, (#[trigger] list@[k])@),
        decreases at,
    {
        at -= 1;
    }
    let mut out = list;
    out.insert(at, row);
    proof {
        let rows = site_rows(out@);
        assert(rows =~= old_rows.insert(at as int, row@));
        vstd::seq_lib::to_multiset_insert(old_rows, at as int, row@);
        assert forall|i: int, j: int| 0 <= i < j < rows.len() implies !shown_before(
            #[trigger] rows[j],
            #[trigger] rows[i],
        ) by {
            if j == at {
                lemma_not_before(old_rows, row@, at as int, i);
            } else if i == at {
                let k = j - 1;
                assert(shown_before(row@, list@[k]@));
                lemma_shown_asymmetric(row@, old_rows[k]);
            } else {
                let a = if i < at { i } else { i - 1 };
                let b = if j < at { j } else { j - 1 };
                assert(rows[i] == old_rows[a]);
                assert(rows[j] == old_rows[b]);
                assert(!shown_before(old_rows[b], old_rows[a]));
            }
        }
    }
    out
}

proof fn lemma_shown_asymmetric(a: (Seq<char>, usize), b: (Seq<char>, usize))
    requires
        shown_before(a, b),
    ensures
        !shown_before(b, a),
{
    crate::text::law_dictionary_order(a.0, b.0, a.0);
}

/// A row that is not shown before the last of the rows in front of it is shown before
/// none of them.
proof fn lemma_not_before(rows: Seq<(Seq<char>, usize)>, row: (Seq<char>, usize), at: int, i: int)
    requires
        in_order(rows),
        0 <= i < at <= rows.len(),
        !shown_before(row, rows[at - 1]),
    ensures
        !shown_before(row, rows[i]),
{
    if i < at - 1 {
        let last = rows[at - 1];
        assert(!shown_before(last, rows[i]));
        crate::text::law_dictionary_order(row.0, rows[i].0, last.0);
        crate::text::law_dictionary_order(rows[i].0, last.0, row.0);
        crate::text::law_dictionary_order(last.0, row.0, rows[i].0);
    }
}

fn charge(rows: Vec<Site>, site: &str) -> (r: Vec<Site>)
    ensures
        site_rows(r@) == charged(site_rows(rows@), site@),
{
    let ghost all = site_rows(rows@);
    let name = site.to_owned();
    let mut i: usize = 0;
    let mut out = rows;
    proof {
        assert(all.skip(0) =~= all);
        assert(all.take(0) + charged(all.skip(0), site@) =~= charged(all, site@));
    }
    while i < out.len()
        invariant
            i <= out@.len(),
            name@ == site@,
            all == site_rows(rows@),
            all == site_rows(out@),
            charged(all, site@) == all.take(i as int) + charged(all.skip(i as int), site@),
        decreases out@.len() - i,
    {
        proof {
            assert(all[i as int] == out@[i as int]@);
            assert(all.skip(i as int)[0] == all[i as int]);
        }
        if out[i].name.eq(&name) {
            let n: usize = out[i].count;
            let next: usize = if n < usize::MAX {
                n + 1
            } else {
                0
            };
            out.set(i, Site { name, count: next });
            proof {
                assert(site_rows(out@) =~= all.take(i as int) + charged(all.skip(i as int), site@));
            }
            return out;
        }
        proof {
            assert(all.skip(i as int).drop_first() =~= all.skip(i as int + 1));
            assert(all.take(i as int) + (seq![all[i as int]] + charged(
                all.skip(i as int + 1),
                site@,
            )) =~= all.take(i as int + 1) + charged(all.skip(i as int + 1), site@));
        }
        i += 1;
    }
    proof {
        assert(all.skip(i as int) =~= Seq::<(Seq<char>, usize)>::empty());
    }
    out.push(Site { name, count: 1 });
    proof {
        assert(site_rows(out@) =~= all.take(i as int) + charged(all.skip(i as int), site@));
    }
    out
}

} // verus!
