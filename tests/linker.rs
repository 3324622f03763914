use rpc_adapter::linker::{
    common_size, do_relocation, get_got_base, make_got, make_plt, relocation_value, CommonSection,
    EntryTable, LinkError, Patch, Relocation, RelocationKind, RelocationTarget, Section,
    SectionKind, Symbol,
};

fn section(kind: SectionKind, size: u64) -> Section {
    Section {
        address: 0x40,
        size,
        align: 16,
        file_range: Some((0x200, size)),
        kind,
        relocations: Vec::new(),
    }
}

fn local(address: u64, section: usize) -> Symbol {
    Symbol { address, size: 8, section: Some(section), is_global: false, is_common: false }
}

fn rel(kind: RelocationKind, target: RelocationTarget, addend: i64) -> Relocation {
    Relocation { kind, target, addend, size: 64 }
}

#[test]
fn need_load_by_kind_and_size() {
    assert!(section(SectionKind::Text, 8).need_load());
    assert!(section(SectionKind::InitArray, 8).need_load());
    assert!(!section(SectionKind::Text, 0).need_load());
    assert!(!section(SectionKind::UninitializedData, 8).need_load());
    assert!(!section(SectionKind::Other, 8).need_load());
}

#[test]
fn runtime_address_updates() {
    let mut t = section(SectionKind::Data, 8);
    t.update_runtime_addr(0x10_0000, 0x99_0000).unwrap();
    assert_eq!(t.address, 0x10_0200);
    let mut b = section(SectionKind::UninitializedData, 8);
    b.update_runtime_addr(0x10_0000, 0x99_0000).unwrap();
    assert_eq!(b.address, 0x99_0000);
    let mut o = section(SectionKind::Other, 8);
    o.update_runtime_addr(0x10_0000, 0x99_0000).unwrap();
    assert_eq!(o.address, 0x40);
    let mut m = Section { file_range: None, ..section(SectionKind::Text, 8) };
    assert_eq!(m.update_runtime_addr(0, 0), Err(LinkError::MissingFileRange));
    let mut f = section(SectionKind::Text, 8);
    assert_eq!(f.update_runtime_addr(u64::MAX, 0), Err(LinkError::Overflow));
}

#[test]
fn bss_len_rounds_to_pages() {
    assert_eq!(section(SectionKind::UninitializedData, 1).bss_len(4096), Some(4096));
    assert_eq!(section(SectionKind::UninitializedData, 4096).bss_len(4096), Some(4096));
    assert_eq!(section(SectionKind::UninitializedData, 4097).bss_len(4096), Some(8192));
    assert_eq!(section(SectionKind::UninitializedData, u64::MAX).bss_len(4096), None);
}

#[test]
fn got_and_plt_entries() {
    let mut got = EntryTable::new(0x1000, 8, 2).unwrap();
    assert_eq!(get_got_base(&got), 0x1000);
    assert_eq!(make_got(&mut got, 0xaaaa), Ok(0x1000));
    assert_eq!(make_got(&mut got, 0xbbbb), Ok(0x1008));
    assert_eq!(make_got(&mut got, 0xcccc), Err(LinkError::TableFull));
    assert_eq!(got.entries, vec![0xaaaa, 0xbbbb]);
    let mut plt = EntryTable::new(0x2000, 16, 4).unwrap();
    assert_eq!(make_plt(&mut plt, 1), Ok(0x2000));
    assert_eq!(make_plt(&mut plt, 2), Ok(0x2010));
    assert!(EntryTable::new(-1, 8, 1).is_none());
    assert!(EntryTable::new(i64::MAX - 8, 8, 2).is_none());
}

#[test]
fn relocation_formulas() {
    let (s, a, p, got, g, l) = (0x1000, 8, 0x800, 0x4000, 0x4010, 0x5000);
    let v = |k| relocation_value(k, s, a, p, got, g, l);
    assert_eq!(v(RelocationKind::Absolute), Ok(0x1008));
    assert_eq!(v(RelocationKind::Relative), Ok(0x808));
    assert_eq!(v(RelocationKind::Got), Ok(0x18));
    assert_eq!(v(RelocationKind::GotRelative), Ok(0x3818));
    assert_eq!(v(RelocationKind::GotBaseRelative), Ok(0x3808));
    assert_eq!(v(RelocationKind::GotBaseOffset), Ok(0x1008 - 0x4000));
    assert_eq!(v(RelocationKind::PltRelative), Ok(0x4808));
    assert_eq!(v(RelocationKind::ImageOffset), Ok(0x1008));
    assert_eq!(v(RelocationKind::SectionOffset), Ok(0x1008));
    assert_eq!(v(RelocationKind::Other), Err(LinkError::Unsupported));
    assert_eq!(
        relocation_value(RelocationKind::Absolute, i64::MAX, 1, 0, 0, 0, 0),
        Err(LinkError::Overflow)
    );
}

#[test]
fn relocation_pass_patches_loaded_sections() {
    let mut text = section(SectionKind::Text, 0x100);
    text.address = 0x10_0000;
    text.relocations = vec![
        (0x10, rel(RelocationKind::Relative, RelocationTarget::Symbol(0), -4)),
        (0x20, rel(RelocationKind::Absolute, RelocationTarget::Symbol(1), 0)),
        (0x30, rel(RelocationKind::Got, RelocationTarget::Symbol(0), 0)),
        (0x40, Relocation { size: 0, ..rel(RelocationKind::Absolute, RelocationTarget::Absolute, 5) }),
        (0x48, rel(RelocationKind::PltRelative, RelocationTarget::Symbol(1), 0)),
    ];
    let mut data = section(SectionKind::Data, 0x40);
    data.address = 0x20_0000;
    let mut skipped = section(SectionKind::Other, 0x40);
    skipped.relocations = vec![(0, rel(RelocationKind::Other, RelocationTarget::Absolute, 0))];
    let sections = vec![text, data, skipped];
    let syms = vec![
        local(0x8, 1),
        Symbol { address: 0, size: 0, section: None, is_global: true, is_common: false },
    ];
    let globals = vec![None, Some(0x7000_0000)];
    let mut got = EntryTable::new(0x30_0000, 8, 4).unwrap();
    let mut plt = EntryTable::new(0x40_0000, 16, 4).unwrap();
    let patches = do_relocation(&sections, &syms, &globals, &mut got, &mut plt).unwrap();
    assert_eq!(
        patches,
        vec![
            Patch { place: 0x10_0010, value: 0x20_0008 - 4 - 0x10_0010, len: 8 },
            Patch { place: 0x10_0020, value: 0x7000_0000, len: 8 },
            Patch { place: 0x10_0030, value: 0, len: 8 },
            Patch { place: 0x10_0048, value: 0x40_0000 - 0x10_0048, len: 8 },
        ]
    );
    assert_eq!(got.entries, vec![0x20_0008]);
    assert_eq!(plt.entries, vec![0x7000_0000]);
}

#[test]
fn relocation_pass_reports_missing_symbol() {
    let mut text = section(SectionKind::Text, 0x100);
    text.relocations = vec![
        (0, rel(RelocationKind::Absolute, RelocationTarget::Absolute, 1)),
        (8, rel(RelocationKind::Absolute, RelocationTarget::Symbol(0), 0)),
    ];
    let syms = vec![Symbol { address: 0, size: 0, section: None, is_global: true, is_common: false }];
    let mut got = EntryTable::new(0, 8, 0).unwrap();
    let mut plt = EntryTable::new(0, 16, 0).unwrap();
    let r = do_relocation(&vec![text], &syms, &vec![None], &mut got, &mut plt);
    assert_eq!(r, Err(LinkError::MissingSymbol));
    let mut sec = section(SectionKind::Text, 0x100);
    sec.relocations = vec![(0, rel(RelocationKind::Absolute, RelocationTarget::Section(0), 0))];
    assert_eq!(do_relocation(&vec![sec], &syms, &vec![None], &mut got, &mut plt), Err(LinkError::Unsupported));
    let mut g = section(SectionKind::Text, 0x100);
    g.relocations = vec![(0, rel(RelocationKind::Got, RelocationTarget::Absolute, 0))];
    assert_eq!(do_relocation(&vec![g], &syms, &vec![None], &mut got, &mut plt), Err(LinkError::TableFull));
}

#[test]
fn common_symbols_take_their_sizes_in_order() {
    let syms = vec![
        Symbol { address: 0, size: 16, section: None, is_global: true, is_common: true },
        Symbol { address: 0, size: 99, section: None, is_global: true, is_common: false },
        Symbol { address: 0, size: 8, section: None, is_global: true, is_common: true },
    ];
    assert_eq!(common_size(&syms), Some(24));
    let big = vec![
        Symbol { address: 0, size: u64::MAX, section: None, is_global: true, is_common: true },
        Symbol { address: 0, size: 1, section: None, is_global: true, is_common: true },
    ];
    assert_eq!(common_size(&big), None);
    let mut c = CommonSection::new(0x5000, 24).unwrap();
    assert_eq!(c.alloc_entry_for_symbol(&syms[0]), Some(0x5000));
    assert_eq!(c.alloc_entry_for_symbol(&syms[2]), Some(0x5010));
    assert_eq!(c.alloc_entry_for_symbol(&syms[2]), None);
    assert_eq!(c.used, 24);
    assert!(CommonSection::new(u64::MAX, 1).is_none());
}

#[test]
fn bss_map_len_uses_system_page() {
    let (n, page) = section(SectionKind::UninitializedData, 100).bss_map_len().unwrap();
    assert!(page > 0);
    assert_eq!(n, page);
    let (m, _) = section(SectionKind::UninitializedData, page + 1).bss_map_len().unwrap();
    assert_eq!(m, 2 * page);
    let mut wide = section(SectionKind::UninitializedData, 8);
    wide.align = page * 2;
    assert_eq!(wide.bss_map_len(), Err(LinkError::BadPageSize));
}
