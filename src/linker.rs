//! Relocation arithmetic of the loader that hot-loads engines: which sections
//! are loaded, where they end up, and the value each relocation writes.
//! Reading the object file, mapping memory and writing the values are done by
//! the caller.
use vstd::prelude::*;

verus! {

/// Size in bytes of one global offset table entry.
pub const GOT_ENTRY_SIZE: i64 = 8;

/// Size in bytes of one procedure linkage table entry: an address and an
/// eight-byte trampoline.
pub const PLT_ENTRY_SIZE: i64 = 16;

/// Errors of relocation.
#[derive(Clone, Copy, Debug, PartialEq, Eq, Structural)]
pub enum LinkError {
    /// A loaded section has no range in the file.
    MissingFileRange,
    /// An address or value does not fit in 64 bits.
    Overflow,
    /// The table has no room for another entry.
    TableFull,
    /// The relocation kind or target is not handled.
    Unsupported,
    /// A relocation names a symbol that is not defined.
    MissingSymbol,
    /// A local symbol is not defined in a section of the object.
    NoSection,
    /// A zero-initialised section needs more alignment than a page gives,
    /// or the system reports no page size.
    BadPageSize,
}

/// Relies on `page_size::get`: the system's memory page size, as the system
/// reports it.
#[verifier::external_body]
fn system_page_size() -> (r: usize) {
    page_size::get()
}

/// What a section holds, as far as loading goes.
#[derive(Clone, Copy, Debug, PartialEq, Eq, Structural)]
pub enum SectionKind {
    Text,
    Data,
    ReadOnlyData,
    /// Zero-initialised data that takes no room in the file.
    UninitializedData,
    /// Pointers to constructors.
    InitArray,
    /// Pointers to destructors.
    FiniArray,
    Other,
}

/// A section of a relocatable object.
#[derive(Debug)]
pub struct Section {
    /// Runtime address once loaded; the file's address before.
    pub address: u64,
    pub size: u64,
    pub align: u64,
    /// Offset and length of the section's bytes in the file.
    pub file_range: Option<(u64, u64)>,
    pub kind: SectionKind,
    /// Relocations to apply to the section: offset in the section, relocation.
    pub relocations: Vec<(u64, Relocation)>,
}

impl Section {
    pub open spec fn spec_need_load(&self) -> bool {
        self.size != 0 && match self.kind {
            SectionKind::Text
            | SectionKind::Data
            | SectionKind::ReadOnlyData
            | SectionKind::InitArray
            | SectionKind::FiniArray => true,
            _ => false,
        }
    }

    pub open spec fn is_bss(&self) -> bool {
        self.kind == SectionKind::UninitializedData
    }

    /// Whether the section's bytes are loaded from the image: it is not empty
    /// and holds code, data, read-only data or constructor/destructor arrays.
    pub fn need_load(&self) -> (r: bool)
        ensures
            r == self.spec_need_load(),
    {
        if self.size == 0 {
            return false;
        }
        match self.kind {
            SectionKind::Text
            | SectionKind::Data
            | SectionKind::ReadOnlyData
            | SectionKind::InitArray
            | SectionKind::FiniArray => true,
            _ => false,
        }
    }

    /// Bytes to map for a zero-initialised section: its size rounded up to a
    /// whole number of pages; `None` if that does not fit in 64 bits.
    pub fn bss_len(&self, page_size: u64) -> (r: Option<u64>)
        requires
            page_size > 0,
        ensures
            match r {
                Some(n) => n % page_size == 0 && n >= self.size && n < self.size + page_size,
                None => self.size as int + (page_size as int - self.size as int % page_size as int) > u64::MAX,
            },
    {
        let rem = self.size % page_size;
        if rem == 0 {
            return Some(self.size);
        }
        let pad = page_size - rem;
        if self.size > u64::MAX - pad {
            return None;
        }
        proof {
            assert((self.size as int + pad as int) % (page_size as int) == 0) by (nonlinear_arith)
                requires
                    rem == self.size % page_size,
                    pad == page_size - rem,
                    page_size > 0,
            ;
        }
        Some(self.size + pad)
    }

    /// Bytes to map for this zero-initialised section, with the system's page
    /// size: the section's size rounded up to whole pages. The page size must
    /// be at least the section's alignment.
    pub fn bss_map_len(&self) -> (r: Result<(u64, u64), LinkError>)
        ensures
            r matches Ok((n, p)) ==> p > 0 && self.align <= p && n % p == 0 && n >= self.size && n
                < self.size + p,
    {
        let page = system_page_size() as u64;
        if page == 0 || self.align > page {
            return Err(LinkError::BadPageSize);
        }
        match self.bss_len(page) {
            Some(n) => Ok((n, page)),
            None => Err(LinkError::Overflow),
        }
    }

    /// Sets the runtime address: a non-empty zero-initialised section lives
    /// at `bss_addr`, where the caller mapped it; a loaded section lives at
    /// its file offset from the image's start `image_addr`. Other sections
    /// keep their address.
    pub fn update_runtime_addr(&mut self, image_addr: u64, bss_addr: u64) -> (r: Result<(), LinkError>)
        ensures
            final(self).relocations@ == old(self).relocations@,
            final(self).size == old(self).size,
            final(self).align == old(self).align,
            final(self).file_range == old(self).file_range,
            final(self).kind == old(self).kind,
            old(self).is_bss() && old(self).size > 0 ==> r is Ok && final(self).address == bss_addr,
            !(old(self).is_bss() && old(self).size > 0) && old(self).spec_need_load() ==> match old(self).file_range {
                None => r == Err::<(), LinkError>(LinkError::MissingFileRange) && final(self).address
                    == old(self).address,
                Some(fr) => if image_addr + fr.0 <= u64::MAX {
                    r is Ok && final(self).address == image_addr + fr.0
                } else {
                    r == Err::<(), LinkError>(LinkError::Overflow) && final(self).address == old(self).address
                },
            },
            !(old(self).is_bss() && old(self).size > 0) && !old(self).spec_need_load() ==> r is Ok
                && final(self).address == old(self).address,
    {
        if self.kind == SectionKind::UninitializedData && self.size > 0 {
            self.address = bss_addr;
            return Ok(());
        }
        if self.need_load() {
            match self.file_range {
                None => {
                    return Err(LinkError::MissingFileRange);
                },
                Some((off, _)) => {
                    if off > u64::MAX - image_addr {
                        return Err(LinkError::Overflow);
                    }
                    self.address = image_addr + off;
                },
            }
        }
        Ok(())
    }
}

/// A table of eight-byte entries at `base`: the global offset table, or the
/// procedure linkage table with sixteen-byte entries.
pub struct EntryTable {
    pub base: i64,
    pub entry_size: i64,
    /// Capacity in entries.
    pub capacity: usize,
    /// The target address of each entry, in order of creation.
    pub entries: Vec<i64>,
}

impl EntryTable {
    pub open spec fn wf(&self) -> bool {
        &&& self.entry_size > 0
        &&& self.entries@.len() <= self.capacity
        &&& self.base >= 0
        &&& self.base + self.entry_size * self.capacity <= i64::MAX
    }

    /// Address of entry `i`.
    pub open spec fn entry_addr(&self, i: int) -> int {
        self.base + self.entry_size * i
    }

    /// An empty table of `capacity` entries of `entry_size` bytes at `base`.
    pub fn new(base: i64, entry_size: i64, capacity: usize) -> (r: Option<EntryTable>)
        requires
            entry_size > 0,
        ensures
            match r {
                Some(t) => t.wf() && t.base == base && t.entry_size == entry_size && t.capacity
                    == capacity && t.entries@ == Seq::<i64>::empty(),
                None => base < 0 || base + entry_size * capacity > i64::MAX,
            },
    {
        if base < 0 {
            return None;
        }
        let cap = capacity as u64;
        if cap > (i64::MAX as u64) / (entry_size as u64) {
            proof {
                assert(entry_size * capacity > i64::MAX) by (nonlinear_arith)
                    requires
                        entry_size > 0,
                        capacity > i64::MAX / entry_size,
                ;
            }
            return None;
        }
        proof {
            assert(cap * entry_size <= i64::MAX && cap <= i64::MAX) by (nonlinear_arith)
                requires
                    entry_size > 0,
                    cap <= i64::MAX / entry_size,
            ;
        }
        let span = (cap as i64) * entry_size;
        if base > i64::MAX - span {
            return None;
        }
        Some(EntryTable { base, entry_size, capacity, entries: Vec::new() })
    }
}

/// Start of the global offset table.
pub fn get_got_base(got: &EntryTable) -> (r: i64)
    ensures
        r == got.base,
{
    got.base
}

/// Appends an entry holding `target` to `table` and returns its address;
/// `TableFull` when the table has no room left.
fn add_entry(table: &mut EntryTable, target: i64) -> (r: Result<i64, LinkError>)
    requires
        old(table).wf(),
    ensures
        final(table).wf(),
        final(table).base == old(table).base,
        final(table).entry_size == old(table).entry_size,
        final(table).capacity == old(table).capacity,
        old(table).entries@.len() < old(table).capacity ==> {
            &&& r is Ok
            &&& r->Ok_0 == old(table).entry_addr(old(table).entries@.len() as int)
            &&& final(table).entries@ == old(table).entries@.push(target)
        },
        old(table).entries@.len() >= old(table).capacity ==> r == Err::<i64, LinkError>(
            LinkError::TableFull,
        ) && final(table).entries@ == old(table).entries@,
{
    let n = table.entries.len();
    if n >= table.capacity {
        return Err(LinkError::TableFull);
    }
    proof {
        assert(0 <= table.entry_size * n <= table.entry_size * table.capacity && n
            <= table.entry_size * table.capacity) by (nonlinear_arith)
            requires
                table.entry_size > 0,
                n < table.capacity,
        ;
    }
    let addr = table.base + table.entry_size * (n as i64);
    table.entries.push(target);
    Ok(addr)
}

/// Creates a global offset table entry holding `target`; returns its address.
pub fn make_got(got: &mut EntryTable, target: i64) -> (r: Result<i64, LinkError>)
    requires
        old(got).wf(),
    ensures
        final(got).wf(),
        final(got).base == old(got).base,
        final(got).entry_size == old(got).entry_size,
        final(got).capacity == old(got).capacity,
        old(got).entries@.len() < old(got).capacity ==> {
            &&& r is Ok
            &&& r->Ok_0 == old(got).entry_addr(old(got).entries@.len() as int)
            &&& final(got).entries@ == old(got).entries@.push(target)
        },
        old(got).entries@.len() >= old(got).capacity ==> r == Err::<i64, LinkError>(
            LinkError::TableFull,
        ) && final(got).entries@ == old(got).entries@,
{
    add_entry(got, target)
}

/// Creates a procedure linkage table entry that jumps to `target`; returns
/// its address.
pub fn make_plt(plt: &mut EntryTable, target: i64) -> (r: Result<i64, LinkError>)
    requires
        old(plt).wf(),
    ensures
        final(plt).wf(),
        final(plt).base == old(plt).base,
        final(plt).entry_size == old(plt).entry_size,
        final(plt).capacity == old(plt).capacity,
        old(plt).entries@.len() < old(plt).capacity ==> {
            &&& r is Ok
            &&& r->Ok_0 == old(plt).entry_addr(old(plt).entries@.len() as int)
            &&& final(plt).entries@ == old(plt).entries@.push(target)
        },
        old(plt).entries@.len() >= old(plt).capacity ==> r == Err::<i64, LinkError>(
            LinkError::TableFull,
        ) && final(plt).entries@ == old(plt).entries@,
{
    add_entry(plt, target)
}

/// How a relocation computes the value it writes.
#[derive(Clone, Copy, Debug, PartialEq, Eq, Structural)]
pub enum RelocationKind {
    /// S + A
    Absolute,
    /// S + A - P
    Relative,
    /// G + A - GOT
    Got,
    /// G + A - P
    GotRelative,
    /// GOT + A - P
    GotBaseRelative,
    /// S + A - GOT
    GotBaseOffset,
    /// L + A - P
    PltRelative,
    /// S + A - Image, with the image at zero
    ImageOffset,
    /// S + A - Section, with the section at zero
    SectionOffset,
    Other,
}

/// The value a relocation of `kind` writes, from the symbol's address `s`,
/// the addend `a`, the place `p`, the GOT's base `got`, the address `g` of
/// the symbol's GOT entry and the address `l` of its PLT entry.
pub open spec fn relocation_value_spec(kind: RelocationKind, s: int, a: int, p: int, got: int, g: int, l: int) -> Option<int> {
    match kind {
        RelocationKind::Absolute => Some(s + a),
        RelocationKind::Relative => Some(s + a - p),
        RelocationKind::Got => Some(g + a - got),
        RelocationKind::GotRelative => Some(g + a - p),
        RelocationKind::GotBaseRelative => Some(got + a - p),
        RelocationKind::GotBaseOffset => Some(s + a - got),
        RelocationKind::PltRelative => Some(l + a - p),
        RelocationKind::ImageOffset => Some(s + a),
        RelocationKind::SectionOffset => Some(s + a),
        RelocationKind::Other => None,
    }
}

fn add3(x: i64, y: i64, z: i64) -> (r: Result<i64, LinkError>)
    ensures
        x + y - z >= i64::MIN && x + y - z <= i64::MAX ==> r == Ok::<i64, LinkError>((x + y - z) as i64),
        !(x + y - z >= i64::MIN && x + y - z <= i64::MAX) ==> r == Err::<i64, LinkError>(LinkError::Overflow),
{
    let wide = x as i128 + y as i128 - z as i128;
    if wide < i64::MIN as i128 || wide > i64::MAX as i128 {
        return Err(LinkError::Overflow);
    }
    Ok(wide as i64)
}

/// The value a relocation writes; `Unsupported` for a kind that is not
/// handled and `Overflow` when the value does not fit in 64 bits.
pub fn relocation_value(kind: RelocationKind, s: i64, a: i64, p: i64, got: i64, g: i64, l: i64) -> (r: Result<i64, LinkError>)
    ensures
        match relocation_value_spec(kind, s as int, a as int, p as int, got as int, g as int, l as int) {
            None => r == Err::<i64, LinkError>(LinkError::Unsupported),
            Some(v) => if i64::MIN <= v <= i64::MAX {
                r == Ok::<i64, LinkError>(v as i64)
            } else {
                r == Err::<i64, LinkError>(LinkError::Overflow)
            },
        },
{
    match kind {
        RelocationKind::Absolute => add3(s, a, 0),
        RelocationKind::Relative => add3(s, a, p),
        RelocationKind::Got => add3(g, a, got),
        RelocationKind::GotRelative => add3(g, a, p),
        RelocationKind::GotBaseRelative => add3(got, a, p),
        RelocationKind::GotBaseOffset => add3(s, a, got),
        RelocationKind::PltRelative => add3(l, a, p),
        RelocationKind::ImageOffset => add3(s, a, 0),
        RelocationKind::SectionOffset => add3(s, a, 0),
        RelocationKind::Other => Err(LinkError::Unsupported),
    }
}

/// What a relocation refers to.
#[derive(Clone, Copy, Debug, PartialEq, Eq, Structural)]
pub enum RelocationTarget {
    /// The symbol at this index of the object's symbol table.
    Symbol(usize),
    /// The section at this index.
    Section(usize),
    /// No symbol: the value zero.
    Absolute,
}

/// One relocation: how to compute the value, from what, and how many bits
/// of it to write.
#[derive(Clone, Copy, Debug, PartialEq, Eq, Structural)]
pub struct Relocation {
    pub kind: RelocationKind,
    pub target: RelocationTarget,
    pub addend: i64,
    /// Width of the written value in bits; zero writes nothing.
    pub size: u8,
}

/// A symbol of the object being loaded, as relocation needs it.
#[derive(Clone, Copy, Debug, PartialEq, Eq, Structural)]
pub struct Symbol {
    /// Offset within its section, or the address of an absolute symbol.
    pub address: u64,
    pub size: u64,
    /// Index of the section that defines it, if any.
    pub section: Option<usize>,
    /// Whether it is resolved by name against the global symbols.
    pub is_global: bool,
    pub is_common: bool,
}

/// A value to write: the low `len` bytes of `value`, at address `place`.
#[derive(Clone, Copy, Debug, PartialEq, Eq, Structural)]
pub struct Patch {
    pub place: u64,
    pub value: i64,
    pub len: usize,
}

/// The address of `target`: for a global symbol, what `globals` resolved it
/// to by name; for a local one, its section's runtime address plus its
/// offset; for an absolute target, zero.
pub open spec fn target_addr(
    sections: Seq<Section>,
    syms: Seq<Symbol>,
    globals: Seq<Option<u64>>,
    target: RelocationTarget,
) -> Result<int, LinkError> {
    match target {
        RelocationTarget::Symbol(i) => if i >= syms.len() {
            Err(LinkError::MissingSymbol)
        } else if syms[i as int].is_global {
            if i < globals.len() && globals[i as int] is Some {
                Ok(globals[i as int]->Some_0 as int)
            } else {
                Err(LinkError::MissingSymbol)
            }
        } else {
            match syms[i as int].section {
                Some(si) => if si < sections.len() {
                    Ok(sections[si as int].address + syms[i as int].address)
                } else {
                    Err(LinkError::NoSection)
                },
                None => Err(LinkError::NoSection),
            }
        },
        RelocationTarget::Section(_) => Err(LinkError::Unsupported),
        RelocationTarget::Absolute => Ok(0),
    }
}

/// State threaded through relocation: the patches so far and the entries of
/// the global offset and procedure linkage tables.
pub struct RelocState {
    pub patches: Seq<Patch>,
    pub got: Seq<i64>,
    pub plt: Seq<i64>,
}

/// Applies one relocation at offset `off` of `sec` to `st`. A GOT-based kind
/// that needs the symbol's own entry creates one holding the symbol's
/// address; so does a PLT-relative one in the linkage table.
pub open spec fn reloc_step(
    sections: Seq<Section>,
    syms: Seq<Symbol>,
    globals: Seq<Option<u64>>,
    got: EntryTable,
    plt: EntryTable,
    sec: Section,
    off: u64,
    rela: Relocation,
    st: RelocState,
) -> Result<RelocState, LinkError> {
    match target_addr(sections, syms, globals, rela.target) {
        Err(e) => Err(e),
        Ok(s) => {
            let p = sec.address + off;
            if p > i64::MAX || s > i64::MAX {
                Err(LinkError::Overflow)
            } else {
                let needs_got = rela.kind == RelocationKind::Got || rela.kind
                    == RelocationKind::GotRelative;
                let needs_plt = rela.kind == RelocationKind::PltRelative;
                if needs_got && st.got.len() >= got.capacity {
                    Err(LinkError::TableFull)
                } else if needs_plt && st.plt.len() >= plt.capacity {
                    Err(LinkError::TableFull)
                } else {
                    let g = if needs_got {
                        got.entry_addr(st.got.len() as int)
                    } else {
                        0
                    };
                    let l = if needs_plt {
                        plt.entry_addr(st.plt.len() as int)
                    } else {
                        0
                    };
                    let got2 = if needs_got {
                        st.got.push(s as i64)
                    } else {
                        st.got
                    };
                    let plt2 = if needs_plt {
                        st.plt.push(s as i64)
                    } else {
                        st.plt
                    };
                    match relocation_value_spec(rela.kind, s, rela.addend as int, p, got.base as int, g, l) {
                        None => Err(LinkError::Unsupported),
                        Some(v) => if v < i64::MIN || v > i64::MAX {
                            Err(LinkError::Overflow)
                        } else {
                            let patches = if rela.size == 0 {
                                st.patches
                            } else {
                                st.patches.push(
                                    Patch { place: p as u64, value: v as i64, len: (rela.size / 8) as usize },
                                )
                            };
                            Ok(RelocState { patches, got: got2, plt: plt2 })
                        },
                    }
                }
            }
        },
    }
}

/// The first `m` relocations of section `si` applied to `st`.
pub open spec fn reloc_section(
    sections: Seq<Section>,
    syms: Seq<Symbol>,
    globals: Seq<Option<u64>>,
    got: EntryTable,
    plt: EntryTable,
    si: int,
    m: nat,
    st: RelocState,
) -> Result<RelocState, LinkError>
    decreases m,
{
    if m == 0 {
        Ok(st)
    } else {
        match reloc_section(sections, syms, globals, got, plt, si, (m - 1) as nat, st) {
            Err(e) => Err(e),
            Ok(st1) => {
                let (off, rela) = sections[si].relocations@[m - 1];
                reloc_step(sections, syms, globals, got, plt, sections[si], off, rela, st1)
            },
        }
    }
}

/// The relocations of the first `n` sections applied in order, skipping
/// sections that are not loaded, starting from no patches and the tables'
/// current entries.
pub open spec fn reloc_upto(
    sections: Seq<Section>,
    syms: Seq<Symbol>,
    globals: Seq<Option<u64>>,
    got: EntryTable,
    plt: EntryTable,
    n: nat,
) -> Result<RelocState, LinkError>
    decreases n,
{
    if n == 0 {
        Ok(RelocState { patches: Seq::empty(), got: got.entries@, plt: plt.entries@ })
    } else {
        match reloc_upto(sections, syms, globals, got, plt, (n - 1) as nat) {
            Err(e) => Err(e),
            Ok(st) => if !sections[n - 1].spec_need_load() {
                Ok(st)
            } else {
                reloc_section(
                    sections,
                    syms,
                    globals,
                    got,
                    plt,
                    n - 1,
                    sections[n - 1].relocations@.len(),
                    st,
                )
            },
        }
    }
}

proof fn lemma_section_err(
    sections: Seq<Section>,
    syms: Seq<Symbol>,
    globals: Seq<Option<u64>>,
    got: EntryTable,
    plt: EntryTable,
    si: int,
    j: nat,
    m: nat,
    st: RelocState,
    e: LinkError,
)
    requires
        j <= m,
        reloc_section(sections, syms, globals, got, plt, si, j, st) == Err::<RelocState, LinkError>(e),
    ensures
        reloc_section(sections, syms, globals, got, plt, si, m, st) == Err::<RelocState, LinkError>(e),
    decreases m - j,
{
    if j < m {
        lemma_section_err(sections, syms, globals, got, plt, si, j, (m - 1) as nat, st, e);
    }
}

proof fn lemma_upto_err(
    sections: Seq<Section>,
    syms: Seq<Symbol>,
    globals: Seq<Option<u64>>,
    got: EntryTable,
    plt: EntryTable,
    j: nat,
    n: nat,
    e: LinkError,
)
    requires
        j <= n,
        reloc_upto(sections, syms, globals, got, plt, j) == Err::<RelocState, LinkError>(e),
    ensures
        reloc_upto(sections, syms, globals, got, plt, n) == Err::<RelocState, LinkError>(e),
    decreases n - j,
{
    if j < n {
        lemma_upto_err(sections, syms, globals, got, plt, j, (n - 1) as nat, e);
    }
}

/// Applies relocation `rela` at offset `off` of `sec`: resolves its target,
/// creates the GOT or PLT entry it needs, and returns the patch to write, if
/// it writes anything.
fn relocate_one(
    sections: &Vec<Section>,
    syms: &Vec<Symbol>,
    globals: &Vec<Option<u64>>,
    got: &mut EntryTable,
    plt: &mut EntryTable,
    sec: &Section,
    off: u64,
    rela: Relocation,
) -> (r: Result<Option<Patch>, LinkError>)
    requires
        old(got).wf(),
        old(plt).wf(),
    ensures
        final(got).wf(),
        final(plt).wf(),
        final(got).base == old(got).base && final(got).entry_size == old(got).entry_size
            && final(got).capacity == old(got).capacity,
        final(plt).base == old(plt).base && final(plt).entry_size == old(plt).entry_size
            && final(plt).capacity == old(plt).capacity,
        ({
            let st = RelocState { patches: Seq::empty(), got: old(got).entries@, plt: old(plt).entries@ };
            match reloc_step(sections@, syms@, globals@, *old(got), *old(plt), *sec, off, rela, st) {
                Err(e) => r == Err::<Option<Patch>, LinkError>(e),
                Ok(st2) => {
                    &&& r is Ok
                    &&& st2.patches == match r->Ok_0 {
                        Some(p) => seq![p],
                        None => Seq::<Patch>::empty(),
                    }
                    &&& st2.got == final(got).entries@
                    &&& st2.plt == final(plt).entries@
                },
            }
        }),
{
    let s: u64 = match rela.target {
        RelocationTarget::Symbol(i) => {
            if i >= syms.len() {
                return Err(LinkError::MissingSymbol);
            }
            let sym = syms[i];
            if sym.is_global {
                if i < globals.len() {
                    match globals[i] {
                        Some(a) => a,
                        None => {
                            return Err(LinkError::MissingSymbol);
                        },
                    }
                } else {
                    return Err(LinkError::MissingSymbol);
                }
            } else {
                match sym.section {
                    Some(si) => {
                        if si >= sections.len() {
                            return Err(LinkError::NoSection);
                        }
                        let base = sections[si].address;
                        if base > u64::MAX - sym.address || base + sym.address > i64::MAX as u64 {
                            return Err(LinkError::Overflow);
                        }
                        base + sym.address
                    },
                    None => {
                        return Err(LinkError::NoSection);
                    },
                }
            }
        },
        RelocationTarget::Section(_) => {
            return Err(LinkError::Unsupported);
        },
        RelocationTarget::Absolute => 0,
    };
    if sec.address > u64::MAX - off || sec.address + off > i64::MAX as u64 || s > i64::MAX as u64 {
        return Err(LinkError::Overflow);
    }
    let p = sec.address + off;
    let needs_got = rela.kind == RelocationKind::Got || rela.kind == RelocationKind::GotRelative;
    let needs_plt = rela.kind == RelocationKind::PltRelative;
    let g: i64 = if needs_got {
        make_got(got, s as i64)?
    } else {
        0
    };
    let l: i64 = if needs_plt {
        make_plt(plt, s as i64)?
    } else {
        0
    };
    let value = relocation_value(rela.kind, s as i64, rela.addend, p as i64, get_got_base(got), g, l)?;
    if rela.size == 0 {
        Ok(None)
    } else {
        Ok(Some(Patch { place: p, value, len: (rela.size / 8) as usize }))
    }
}

/// Computes the patches that relocate the loaded sections: for every
/// relocation of every section that is loaded, in order, the value to write
/// and where. GOT and PLT entries are created as relocations need them. The
/// result is exactly `reloc_upto` over all sections; on an error, the error
/// of the first relocation that fails.
pub fn do_relocation(
    sections: &Vec<Section>,
    local_syms: &Vec<Symbol>,
    globals: &Vec<Option<u64>>,
    got: &mut EntryTable,
    plt: &mut EntryTable,
) -> (r: Result<Vec<Patch>, LinkError>)
    requires
        old(got).wf(),
        old(plt).wf(),
    ensures
        final(got).wf(),
        final(plt).wf(),
        final(got).base == old(got).base && final(got).entry_size == old(got).entry_size
            && final(got).capacity == old(got).capacity,
        final(plt).base == old(plt).base && final(plt).entry_size == old(plt).entry_size
            && final(plt).capacity == old(plt).capacity,
        match reloc_upto(sections@, local_syms@, globals@, *old(got), *old(plt), sections@.len()) {
            Err(e) => r == Err::<Vec<Patch>, LinkError>(e),
            Ok(st) => {
                &&& r is Ok
                &&& r->Ok_0@ == st.patches
                &&& final(got).entries@ == st.got
                &&& final(plt).entries@ == st.plt
            },
        },
{
    let ghost got0 = *got;
    let ghost plt0 = *plt;
    let mut patches: Vec<Patch> = Vec::new();
    let mut i: usize = 0;
    while i < sections.len()
        invariant
            i <= sections@.len(),
            got0 == *old(got),
            plt0 == *old(plt),
            got.wf(),
            plt.wf(),
            got.base == got0.base && got.entry_size == got0.entry_size && got.capacity == got0.capacity,
            plt.base == plt0.base && plt.entry_size == plt0.entry_size && plt.capacity == plt0.capacity,
            reloc_upto(sections@, local_syms@, globals@, got0, plt0, i as nat) == Ok::<
                RelocState,
                LinkError,
            >(RelocState { patches: patches@, got: got.entries@, plt: plt.entries@ }),
        decreases sections@.len() - i,
    {
        let sec = &sections[i];
        if sec.need_load() {
            let ghost st0 = RelocState { patches: patches@, got: got.entries@, plt: plt.entries@ };
            let mut j: usize = 0;
            while j < sec.relocations.len()
                invariant
                    i < sections@.len(),
                    got0 == *old(got),
                    plt0 == *old(plt),
                    *sec == sections@[i as int],
                    sec.spec_need_load(),
                    reloc_upto(sections@, local_syms@, globals@, got0, plt0, i as nat) == Ok::<
                        RelocState,
                        LinkError,
                    >(st0),
                    j <= sec.relocations@.len(),
                    got.wf(),
                    plt.wf(),
                    got.base == got0.base && got.entry_size == got0.entry_size && got.capacity
                        == got0.capacity,
                    plt.base == plt0.base && plt.entry_size == plt0.entry_size && plt.capacity
                        == plt0.capacity,
                    reloc_section(sections@, local_syms@, globals@, got0, plt0, i as int, j as nat, st0)
                        == Ok::<RelocState, LinkError>(
                        RelocState { patches: patches@, got: got.entries@, plt: plt.entries@ },
                    ),
                decreases sec.relocations@.len() - j,
            {
                let (off, rela) = sec.relocations[j];
                let ghost before = RelocState { patches: patches@, got: got.entries@, plt: plt.entries@ };
                let ghost got_before = *got;
                let ghost plt_before = *plt;
                let res = relocate_one(sections, local_syms, globals, got, plt, sec, off, rela);
                proof {
                    lemma_step_frame(sections@, local_syms@, globals@, got0, plt0, got_before, plt_before, *sec, off, rela, before);
                    assert(sec.relocations@[j as int] == (off, rela));
                }
                match res {
                    Err(e) => {
                        proof {
                            lemma_section_err(sections@, local_syms@, globals@, got0, plt0, i as int, (j + 1) as nat, sec.relocations@.len(), st0, e);
                            lemma_upto_err(sections@, local_syms@, globals@, got0, plt0, (i + 1) as nat, sections@.len(), e);
                        }
                        return Err(e);
                    },
                    Ok(Some(p)) => {
                        patches.push(p);
                        proof {
                            assert(patches@ =~= before.patches + seq![p]);
                        }
                    },
                    Ok(None) => {
                        proof {
                            assert(patches@ =~= before.patches + Seq::<Patch>::empty());
                        }
                    },
                }
                j += 1;
            }
        }
        i += 1;
    }
    Ok(patches)
}

/// One relocation step depends on the tables' entries only through the
/// state: its outcome from `st` is the outcome from empty patches, with the
/// patches of `st` in front.
proof fn lemma_step_frame(
    sections: Seq<Section>,
    syms: Seq<Symbol>,
    globals: Seq<Option<u64>>,
    got0: EntryTable,
    plt0: EntryTable,
    got: EntryTable,
    plt: EntryTable,
    sec: Section,
    off: u64,
    rela: Relocation,
    st: RelocState,
)
    requires
        got.base == got0.base && got.entry_size == got0.entry_size && got.capacity == got0.capacity,
        plt.base == plt0.base && plt.entry_size == plt0.entry_size && plt.capacity == plt0.capacity,
        st.got == got.entries@,
        st.plt == plt.entries@,
    ensures
        ({
            let lone = RelocState { patches: Seq::empty(), got: got.entries@, plt: plt.entries@ };
            match reloc_step(sections, syms, globals, got, plt, sec, off, rela, lone) {
                Err(e) => reloc_step(sections, syms, globals, got0, plt0, sec, off, rela, st)
                    == Err::<RelocState, LinkError>(e),
                Ok(st2) => reloc_step(sections, syms, globals, got0, plt0, sec, off, rela, st)
                    == Ok::<RelocState, LinkError>(
                    RelocState { patches: st.patches + st2.patches, got: st2.got, plt: st2.plt },
                ),
            }
        }),
{
    let lone = RelocState { patches: Seq::empty(), got: got.entries@, plt: plt.entries@ };
    match reloc_step(sections, syms, globals, got, plt, sec, off, rela, lone) {
        Err(e) => {},
        Ok(st2) => {
            assert(st.patches + Seq::<Patch>::empty() =~= st.patches);
            if rela.size != 0 {
                assert(st.patches + st2.patches =~= st.patches.push(st2.patches[0]));
            }
        },
    }
}

/// The total size of the common symbols of `syms`.
pub open spec fn common_total(syms: Seq<Symbol>) -> int
    decreases syms.len(),
{
    if syms.len() == 0 {
        0
    } else {
        common_total(syms.drop_last()) + if syms.last().is_common {
            syms.last().size as int
        } else {
            0
        }
    }
}

/// Bytes to reserve for the common symbols: the sum of their sizes, or
/// `None` if it does not fit in 64 bits.
pub fn common_size(syms: &Vec<Symbol>) -> (r: Option<u64>)
    ensures
        match r {
            Some(n) => n == common_total(syms@),
            None => common_total(syms@) > u64::MAX,
        },
{
    let mut total: u64 = 0;
    let mut i: usize = 0;
    while i < syms.len()
        invariant
            i <= syms@.len(),
            total == common_total(syms@.take(i as int)),
        decreases syms@.len() - i,
    {
        let sym = syms[i];
        proof {
            assert(syms@.take(i + 1).drop_last() =~= syms@.take(i as int));
        }
        if sym.is_common {
            if total > u64::MAX - sym.size {
                proof {
                    lemma_common_total_mono(syms@, (i + 1) as nat);
                }
                return None;
            }
            total = total + sym.size;
        }
        i += 1;
    }
    proof {
        assert(syms@.take(i as int) =~= syms@);
    }
    Some(total)
}

proof fn lemma_common_total_mono(syms: Seq<Symbol>, j: nat)
    requires
        j <= syms.len(),
    ensures
        common_total(syms) >= common_total(syms.take(j as int)),
    decreases syms.len() - j,
{
    if j < syms.len() {
        lemma_common_total_mono(syms, j + 1);
        assert(syms.take(j as int + 1).drop_last() =~= syms.take(j as int));
    } else {
        assert(syms.take(j as int) =~= syms);
    }
}

/// Storage for the common symbols: `len` bytes at `base`, handed out in
/// order of request.
pub struct CommonSection {
    pub base: u64,
    pub len: u64,
    /// Bytes handed out so far.
    pub used: u64,
}

impl CommonSection {
    pub open spec fn wf(&self) -> bool {
        self.used <= self.len && self.base + self.len <= u64::MAX
    }

    /// Common storage of `len` bytes at `base`, none handed out; `None` if
    /// it would wrap around the address space.
    pub fn new(base: u64, len: u64) -> (r: Option<CommonSection>)
        ensures
            match r {
                Some(c) => c.wf() && c.base == base && c.len == len && c.used == 0,
                None => base + len > u64::MAX,
            },
    {
        if base > u64::MAX - len {
            return None;
        }
        Some(CommonSection { base, len, used: 0 })
    }

    /// Hands out `sym.size` bytes for `sym` and returns their address; `None`
    /// when they do not fit, which leaves the storage unchanged.
    pub fn alloc_entry_for_symbol(&mut self, sym: &Symbol) -> (r: Option<u64>)
        requires
            old(self).wf(),
        ensures
            final(self).wf(),
            final(self).base == old(self).base,
            final(self).len == old(self).len,
            old(self).used + sym.size <= old(self).len ==> r == Some((old(self).base + old(self).used) as u64)
                && final(self).used == old(self).used + sym.size,
            old(self).used + sym.size > old(self).len ==> r is None && final(self).used == old(self).used,
    {
        if sym.size > self.len - self.used {
            return None;
        }
        let ret = self.base + self.used;
        self.used = self.used + sym.size;
        Some(ret)
    }
}

} // verus!
