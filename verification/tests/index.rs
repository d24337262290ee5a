use std::collections::HashMap;
use tsdb::common::TSDBError;
use tsdb::index::series;
use tsdb::index::symbol_table;
use tsdb::index::Index;
use tsdb::index::SymbolTable;
use tsdb::index::TOC;

fn uvarint(mut v: u64) -> Vec<u8> {
    let mut out = Vec::new();
    while v >= 0x80 {
        out.push((v & 0x7f) as u8 | 0x80);
        v >>= 7;
    }
    out.push(v as u8);
    out
}

fn crc32c(data: &[u8]) -> u32 {
    crc::Crc::<u32>::new(&crc::CRC_32_ISCSI).checksum(data)
}

fn header() -> Vec<u8> {
    vec![0xba, 0xaa, 0xd7, 0x00, 0x02]
}

fn entry(bytes: &[u8]) -> Vec<u8> {
    let mut out = uvarint(bytes.len() as u64);
    out.extend_from_slice(bytes);
    out
}

/// A symbol block: length, entries, count, checksum.
fn symbol_block(entries: &[u8], count: u32) -> Vec<u8> {
    let mut region = entries.to_vec();
    region.extend_from_slice(&count.to_be_bytes());
    let mut out = (region.len() as u32).to_be_bytes().to_vec();
    out.extend_from_slice(&region);
    out.extend_from_slice(&crc32c(&region).to_be_bytes());
    out
}

fn record(body: &[u8]) -> Vec<u8> {
    let mut out = uvarint(body.len() as u64);
    out.extend_from_slice(body);
    out.extend_from_slice(&crc32c(body).to_be_bytes());
    out
}

fn labels_only_body(labels: &[(u64, u64)]) -> Vec<u8> {
    let mut body = uvarint(labels.len() as u64);
    for (name, value) in labels {
        body.extend_from_slice(&uvarint(*name));
        body.extend_from_slice(&uvarint(*value));
    }
    body.extend_from_slice(&uvarint(0));
    body
}

fn toc_bytes(toc: &TOC) -> Vec<u8> {
    let mut table = Vec::new();
    table.extend_from_slice(&toc.symbols.to_be_bytes());
    table.extend_from_slice(&toc.series.to_be_bytes());
    table.extend_from_slice(&toc.label_index_start.to_be_bytes());
    table.extend_from_slice(&toc.label_offset_table.to_be_bytes());
    table.extend_from_slice(&toc.postings_start.to_be_bytes());
    table.extend_from_slice(&toc.postings_offset_table.to_be_bytes());
    let sum = crc32c(&table);
    table.extend_from_slice(&sum.to_be_bytes());
    table
}

/// Lays out an index file: header, symbol block at `toc.symbols`, series
/// records from `toc.series` on, zeros up to the table of contents.
fn index_file(toc: &TOC, symbols: &[u8], series_region: &[u8]) -> Vec<u8> {
    let mut file = header();
    assert_eq!(file.len() as u64, toc.symbols);
    file.extend_from_slice(symbols);
    assert!(file.len() as u64 <= toc.series);
    file.resize(toc.series as usize, 0);
    file.extend_from_slice(series_region);
    assert!(file.len() as u64 <= toc.label_index_start);
    file.resize(toc.postings_offset_table as usize + 64, 0);
    file.extend_from_slice(&toc_bytes(toc));
    file
}

fn small_names() -> Vec<String> {
    let mut names: Vec<String> = (0..100).map(|i| i.to_string()).collect();
    names.sort();
    names.push("bar".to_string());
    names.push("baz".to_string());
    names.push("foo".to_string());
    names.push("meh".to_string());
    names
}

fn small_toc() -> TOC {
    TOC {
        symbols: 5,
        series: 323,
        label_index_start: 1806,
        postings_start: 2248,
        label_offset_table: 4300,
        postings_offset_table: 4326,
    }
}

/// A small index whose labels refer to symbols by their offset in the file.
fn small_index_file() -> Vec<u8> {
    let names = small_names();
    let mut entries = Vec::new();
    let mut offset_of: HashMap<String, u64> = HashMap::new();
    for name in names.iter() {
        offset_of.insert(name.clone(), 5 + 4 + entries.len() as u64);
        entries.extend_from_slice(&entry(name.as_bytes()));
    }
    let block = symbol_block(&entries, names.len() as u32);
    assert_eq!(5 + block.len(), 323);

    let mut region = Vec::new();
    region.extend_from_slice(&record(&labels_only_body(&[(offset_of["foo"], offset_of["baz"])])));
    for name in names.iter().take(100) {
        region.extend_from_slice(&[0, 0, 0]);
        region.extend_from_slice(&record(&labels_only_body(&[(offset_of["bar"], offset_of[name])])));
    }
    region.extend_from_slice(&record(&labels_only_body(&[])));
    assert!(region.len() <= 1806 - 323);
    index_file(&small_toc(), &block, &region)
}

fn large_toc() -> TOC {
    TOC {
        symbols: 5,
        series: 122043,
        label_index_start: 2604441,
        postings_start: 2622872,
        label_offset_table: 4279608,
        postings_offset_table: 4282677,
    }
}

fn large_index_file(num_series: usize) -> Vec<u8> {
    let mut entries = Vec::new();
    for i in 0..2000 {
        entries.extend_from_slice(&entry(format!("symbol_{}", i).as_bytes()));
    }
    let block = symbol_block(&entries, 2000);
    let table = crc::Crc::<u32>::new(&crc::CRC_32_ISCSI);
    let mut region = Vec::new();
    for i in 0..num_series {
        let body = labels_only_body(&[(1, 1 + (i % 2000) as u64), (2, 1 + (i % 7) as u64)]);
        while region.len() % 16 != 0 {
            region.push(0);
        }
        region.extend_from_slice(&uvarint(body.len() as u64));
        region.extend_from_slice(&body);
        region.extend_from_slice(&table.checksum(&body).to_be_bytes());
    }
    index_file(&large_toc(), &block, &region)
}

#[test]
fn load_test_index() {
    let file = large_index_file(3);
    let index = Index::new(&file).unwrap();

    let expected = TOC {
        symbols: 5,
        series: 122043,
        label_index_start: 2604441,
        postings_start: 2622872,
        label_offset_table: 4279608,
        postings_offset_table: 4282677,
    };
    assert_eq!(expected, index.table_of_contents());
    assert_eq!(Ok(expected), Index::toc(&file));
}

#[test]
fn index_load_test_index() {
    let file = small_index_file();
    let index = Index::new(&file).unwrap();

    let expected = TOC {
        symbols: 5,
        series: 323,
        label_index_start: 1806,
        postings_start: 2248,
        label_offset_table: 4300,
        postings_offset_table: 4326,
    };

    assert_eq!(expected, index.table_of_contents());
}

#[test]
fn load_symbol_table() {
    let file = small_index_file();
    let index = Index::new(&file).unwrap();

    // build expected vec ["0", "1", "10", ..., "foo", "meh"]
    let mut expected: Vec<String> = (0..100).map(|i| i.to_string()).collect();
    expected.sort();
    expected.push("bar".to_string());
    expected.push("baz".to_string());
    expected.push("foo".to_string());
    expected.push("meh".to_string());

    let mut sym_table = symbol_table(&index).unwrap();
    assert_eq!(expected, sym_table.symbols())
}

#[test]
fn load_series() {
    let file = large_index_file(35354);
    let index = Index::new(&file).unwrap();

    // expected count of series
    let expected_count = 35354;

    let mut series = series(&index).unwrap();
    let count = series.items().len();
    assert_eq!(expected_count, count);
}

#[test]
fn index_load_series() {
    let file = small_index_file();
    let index = Index::new(&file).unwrap();

    // expected count of series
    let expected_count = 102;
    let mut expected: HashMap<String, String> =
        (0..100).map(|i| ("bar".to_string(), i.to_string())).collect();
    expected.insert("foo".to_string(), "baz".to_string());

    let mut series = series(&index).unwrap();
    let mut count = 0;
    let mut got = HashMap::<String, String>::new();
    for s in series.items() {
        count += 1;
        for (k, v) in s.labels.into_iter() {
            let key = index.read_symbol(k).unwrap();
            let val = index.read_symbol(v).unwrap();
            got.insert(key, val);
        }
    }
    assert_eq!(expected_count, count);
    assert_eq!(expected, got);
}

#[test]
fn index_header_is_recorded() {
    let file = small_index_file();
    let index = Index::new(&file).unwrap();
    assert_eq!(index.magic(), 0xbaaa_d700);
    assert_eq!(index.version(), 2);
}

#[test]
fn toc_of_exactly_one_table() {
    let toc = TOC {
        symbols: 1,
        series: 2,
        label_index_start: 3,
        label_offset_table: 4,
        postings_start: 5,
        postings_offset_table: u64::MAX,
    };
    let file = toc_bytes(&toc);
    assert_eq!(file.len(), 52);
    assert_eq!(Index::toc(&file), Ok(toc));
    let index = Index::new(&file).unwrap();
    assert_eq!(index.table_of_contents(), toc);
}

#[test]
fn toc_field_order() {
    let mut table = Vec::new();
    for k in 1..=6u64 {
        table.extend_from_slice(&(k * 0x0101_0101).to_be_bytes());
    }
    let sum = crc32c(&table);
    let mut file = vec![9u8; 10];
    file.extend_from_slice(&table);
    file.extend_from_slice(&sum.to_be_bytes());
    let toc = Index::toc(&file).unwrap();
    assert_eq!(toc.symbols, 0x0101_0101);
    assert_eq!(toc.series, 2 * 0x0101_0101);
    assert_eq!(toc.label_index_start, 3 * 0x0101_0101);
    assert_eq!(toc.label_offset_table, 4 * 0x0101_0101);
    assert_eq!(toc.postings_start, 5 * 0x0101_0101);
    assert_eq!(toc.postings_offset_table, 6 * 0x0101_0101);
}

#[test]
fn toc_checksum_mismatch_is_fatal() {
    let file = small_index_file();
    let len = file.len();
    for at in [len - 52, len - 30, len - 5, len - 1] {
        let mut bad = file.clone();
        bad[at] ^= 0x40;
        assert_eq!(Index::toc(&bad), Err(TSDBError::ChecksumMismatch));
        assert_eq!(Index::new(&bad).err(), Some(TSDBError::ChecksumMismatch));
    }
}

#[test]
fn toc_of_a_file_cut_short() {
    let file = toc_bytes(&small_toc());
    for cut in 0..52 {
        assert_eq!(Index::toc(&file[..cut]), Err(TSDBError::OutOfRange));
        assert_eq!(Index::new(&file[..cut]).err(), Some(TSDBError::OutOfRange));
    }
    let whole = small_index_file();
    let cut = &whole[..whole.len() - 1];
    assert_eq!(Index::new(cut).err(), Some(TSDBError::ChecksumMismatch));
}

#[test]
fn lookup_by_ordinal() {
    let file = small_index_file();
    let index = Index::new(&file).unwrap();
    let table = symbol_table(&index).unwrap();
    assert_eq!(table.num_symbols(), 104);
    assert_eq!(table.lookup(1), Ok("0".to_string()));
    assert_eq!(table.lookup(2), Ok("1".to_string()));
    assert_eq!(table.lookup(3), Ok("10".to_string()));
    assert_eq!(table.lookup(100), Ok("99".to_string()));
    assert_eq!(table.lookup(101), Ok("bar".to_string()));
    assert_eq!(table.lookup(104), Ok("meh".to_string()));
    let names = small_names();
    for n in 1..=104 {
        assert_eq!(table.lookup(n), Ok(names[n - 1].clone()));
    }
}

#[test]
fn lookup_outside_the_table_fails() {
    let file = small_index_file();
    let index = Index::new(&file).unwrap();
    let table = symbol_table(&index).unwrap();
    assert_eq!(table.lookup(105), Err(TSDBError::SymbolTableLookup));
    assert_eq!(table.lookup(0), Err(TSDBError::SymbolTableLookup));
    assert_eq!(table.lookup(usize::MAX), Err(TSDBError::SymbolTableLookup));
    assert_eq!(table.lookup(104), Ok("meh".to_string()));
}

#[test]
fn lookup_twice_gives_the_same_string() {
    let file = small_index_file();
    let index = Index::new(&file).unwrap();
    let mut table = symbol_table(&index).unwrap();
    let first = table.lookup(57);
    let second = table.lookup(57);
    assert_eq!(first, second);
    assert!(first.is_ok());
    // neither stepping nor other lookups change what an ordinal means
    let before = table.lookup(3);
    assert_eq!(table.next(), Some("0".to_string()));
    assert_eq!(table.lookup(104), Ok("meh".to_string()));
    assert_eq!(table.next(), Some("1".to_string()));
    assert_eq!(table.lookup(3), before);
    assert_eq!(table.lookup(105), table.lookup(105));
}

fn table_file(entries: &[u8], count: u32) -> Vec<u8> {
    let mut file = header();
    file.extend_from_slice(&symbol_block(entries, count));
    file
}

#[test]
fn lookup_is_bounded_by_the_stored_count() {
    let mut entries = Vec::new();
    for name in ["a", "bb", "ccc", "dddd", "eeeee"] {
        entries.extend_from_slice(&entry(name.as_bytes()));
    }
    let file = table_file(&entries, 3);
    let mut table = SymbolTable::new(&file, 5).unwrap();
    assert_eq!(table.num_symbols(), 3);
    assert_eq!(table.lookup(3), Ok("ccc".to_string()));
    assert_eq!(table.lookup(4), Err(TSDBError::SymbolTableLookup));
    // stepping goes through every entry
    assert_eq!(table.symbols(), vec!["a", "bb", "ccc", "dddd", "eeeee"]);
}

#[test]
fn lookup_is_bounded_by_the_entries() {
    let mut entries = Vec::new();
    for name in ["a", "bb"] {
        entries.extend_from_slice(&entry(name.as_bytes()));
    }
    let file = table_file(&entries, 10);
    let table = SymbolTable::new(&file, 5).unwrap();
    assert_eq!(table.lookup(2), Ok("bb".to_string()));
    assert_eq!(table.lookup(3), Err(TSDBError::SymbolTableLookup));
    assert_eq!(table.lookup(10), Err(TSDBError::SymbolTableLookup));
    assert_eq!(table.lookup(11), Err(TSDBError::SymbolTableLookup));
}

#[test]
fn empty_table() {
    let file = table_file(&[], 0);
    let mut table = SymbolTable::new(&file, 5).unwrap();
    assert_eq!(table.next(), None);
    assert_eq!(table.symbols(), Vec::<String>::new());
    assert_eq!(table.lookup(1), Err(TSDBError::SymbolTableLookup));
    assert_eq!(table.position(), 0);
}

#[test]
fn stepping_through_symbols() {
    let mut entries = Vec::new();
    for name in ["job", "", "h\u{e9}llo", "\u{1f600}"] {
        entries.extend_from_slice(&entry(name.as_bytes()));
    }
    let file = table_file(&entries, 4);
    let mut table = SymbolTable::new(&file, 5).unwrap();
    assert_eq!(table.position(), 0);
    assert_eq!(table.next(), Some("job".to_string()));
    assert_eq!(table.position(), 4);
    assert_eq!(table.next(), Some("".to_string()));
    assert_eq!(table.position(), 5);
    assert_eq!(table.next(), Some("h\u{e9}llo".to_string()));
    assert_eq!(table.next(), Some("\u{1f600}".to_string()));
    assert_eq!(table.position(), entries.len());
    assert_eq!(table.next(), None);
    assert_eq!(table.next(), None);
    assert_eq!(table.position(), entries.len());
    assert_eq!(table.read_symbol(0), Ok("job".to_string()));
    assert_eq!(table.read_symbol(5), Ok("h\u{e9}llo".to_string()));
    assert_eq!(table.lookup(2), Ok("".to_string()));
    assert_eq!(table.lookup(4), Ok("\u{1f600}".to_string()));
}

#[test]
fn invalid_utf8_is_local_to_its_symbol() {
    let mut entries = Vec::new();
    entries.extend_from_slice(&entry(b"ok"));
    entries.extend_from_slice(&entry(&[0xff, 0xfe]));
    entries.extend_from_slice(&entry(b"after"));
    let file = table_file(&entries, 3);
    let mut table = SymbolTable::new(&file, 5).unwrap();
    assert_eq!(table.lookup(1), Ok("ok".to_string()));
    assert_eq!(table.lookup(2), Err(TSDBError::InvalidUtf8));
    assert_eq!(table.lookup(3), Ok("after".to_string()));
    assert_eq!(table.read_symbol(3), Err(TSDBError::InvalidUtf8));
    // stepping ends early at the symbol that is no UTF-8
    assert_eq!(table.symbols(), vec!["ok"]);

    let mut table = SymbolTable::new(&file, 5).unwrap();
    assert_eq!(table.next(), Some("ok".to_string()));
    assert_eq!(table.next(), None);
    assert_eq!(table.position(), 6);
    assert_eq!(table.next(), Some("after".to_string()));
    assert_eq!(table.next(), None);
}

#[test]
fn invalid_utf8_forms() {
    // overlong, surrogate, beyond the last scalar, lone continuation, cut short
    let bad: [&[u8]; 5] =
        [&[0xc0, 0x80], &[0xed, 0xa0, 0x80], &[0xf4, 0x90, 0x80, 0x80], &[0x80], &[0xe2, 0x82]];
    for bytes in bad {
        let file = table_file(&entry(bytes), 1);
        let table = SymbolTable::new(&file, 5).unwrap();
        assert_eq!(table.lookup(1), Err(TSDBError::InvalidUtf8));
    }
    let good: [&str; 4] = ["\u{7f}", "\u{80}", "\u{ffff}", "\u{10ffff}"];
    for text in good {
        let file = table_file(&entry(text.as_bytes()), 1);
        let table = SymbolTable::new(&file, 5).unwrap();
        assert_eq!(table.lookup(1), Ok(text.to_string()));
    }
}

#[test]
fn entry_cut_short_is_no_symbol() {
    let mut entries = entry(b"one");
    entries.extend_from_slice(&[5, b'a', b'b']);
    let file = table_file(&entries, 2);
    let mut table = SymbolTable::new(&file, 5).unwrap();
    assert_eq!(table.lookup(1), Ok("one".to_string()));
    assert_eq!(table.lookup(2), Err(TSDBError::SymbolTableLookup));
    assert_eq!(table.read_symbol(4), Err(TSDBError::OutOfRange));
    assert_eq!(table.read_symbol(7), Err(TSDBError::OutOfRange));
    assert_eq!(table.read_symbol(usize::MAX), Err(TSDBError::OutOfRange));
    assert_eq!(table.symbols(), vec!["one"]);
}

#[test]
fn entry_with_malformed_length() {
    let mut entries = entry(b"one");
    entries.extend_from_slice(&[0x80, 0x80, 0x80, 0x80, 0x80, 0x80]);
    let file = table_file(&entries, 2);
    let mut table = SymbolTable::new(&file, 5).unwrap();
    assert_eq!(table.read_symbol(4), Err(TSDBError::MalformedVarint));
    assert_eq!(table.lookup(2), Err(TSDBError::SymbolTableLookup));
    assert_eq!(table.symbols(), vec!["one"]);
}

#[test]
fn symbol_block_checksum_mismatch() {
    let file = small_index_file();
    for at in [9, 100, 318, 319, 322] {
        let mut bad = file.clone();
        bad[at] ^= 0x01;
        // keep the table of contents valid: it lies at the tail
        let index = Index::new(&bad).unwrap();
        assert_eq!(symbol_table(&index).err(), Some(TSDBError::ChecksumMismatch));
    }
}

#[test]
fn symbol_block_out_of_range() {
    // the block would reach past the end of the file
    let mut file = table_file(&entry(b"abc"), 1);
    file.truncate(file.len() - 1);
    assert_eq!(SymbolTable::new(&file, 5).err(), Some(TSDBError::OutOfRange));
    // no room for the length
    assert_eq!(SymbolTable::new(&file[..8], 5).err(), Some(TSDBError::OutOfRange));
    assert_eq!(SymbolTable::new(&file, file.len()).err(), Some(TSDBError::OutOfRange));
    assert_eq!(SymbolTable::new(&file, usize::MAX).err(), Some(TSDBError::OutOfRange));
    // a region too short for its count
    let mut short = header();
    let region = [1u8, 2, 3];
    short.extend_from_slice(&3u32.to_be_bytes());
    short.extend_from_slice(&region);
    short.extend_from_slice(&crc32c(&region).to_be_bytes());
    assert_eq!(SymbolTable::new(&short, 5).err(), Some(TSDBError::OutOfRange));
}

#[test]
fn symbol_offset_beyond_the_file() {
    let mut toc = small_toc();
    toc.symbols = 1 << 40;
    let mut file = header();
    file.extend_from_slice(&toc_bytes(&toc));
    let index = Index::new(&file).unwrap();
    assert_eq!(symbol_table(&index).err(), Some(TSDBError::OutOfRange));
    toc.symbols = u64::MAX;
    let mut file = header();
    file.extend_from_slice(&toc_bytes(&toc));
    let index = Index::new(&file).unwrap();
    assert_eq!(symbol_table(&index).err(), Some(TSDBError::OutOfRange));
}

#[test]
fn series_region_out_of_range() {
    let mut toc = small_toc();
    toc.series = 40;
    toc.label_index_start = 30;
    let mut file = vec![0u8; 100];
    file.extend_from_slice(&toc_bytes(&toc));
    let index = Index::new(&file).unwrap();
    assert_eq!(series(&index).err(), Some(TSDBError::OutOfRange));

    toc.series = 30;
    toc.label_index_start = 153;
    let mut file = vec![0u8; 100];
    file.extend_from_slice(&toc_bytes(&toc));
    let index = Index::new(&file).unwrap();
    assert_eq!(series(&index).err(), Some(TSDBError::OutOfRange));

    toc.label_index_start = 152;
    let mut file = vec![0u8; 100];
    file.extend_from_slice(&toc_bytes(&toc));
    let index = Index::new(&file).unwrap();
    assert!(series(&index).is_ok());

    toc.series = u64::MAX - 1;
    toc.label_index_start = u64::MAX;
    let mut file = vec![0u8; 100];
    file.extend_from_slice(&toc_bytes(&toc));
    let index = Index::new(&file).unwrap();
    assert_eq!(series(&index).err(), Some(TSDBError::OutOfRange));
}

#[test]
fn empty_series_region() {
    let mut toc = small_toc();
    toc.series = 20;
    toc.label_index_start = 20;
    let mut file = vec![0u8; 100];
    file.extend_from_slice(&toc_bytes(&toc));
    let index = Index::new(&file).unwrap();
    let mut region = series(&index).unwrap();
    assert!(region.next().is_none());
    assert!(region.items().is_empty());
}

#[test]
fn labels_resolve_through_the_symbol_table() {
    let mut entries = Vec::new();
    for name in ["__name__", "up", "job", "node"] {
        entries.extend_from_slice(&entry(name.as_bytes()));
    }
    let block = symbol_block(&entries, 4);
    let region = record(&labels_only_body(&[(1, 2), (3, 4)]));
    let toc = TOC {
        symbols: 5,
        series: 64,
        label_index_start: 64 + region.len() as u64,
        label_offset_table: 200,
        postings_start: 150,
        postings_offset_table: 250,
    };
    let file = index_file(&toc, &block, &region);
    let index = Index::new(&file).unwrap();
    let table = symbol_table(&index).unwrap();
    let items = series(&index).unwrap().items();
    assert_eq!(items.len(), 1);
    let resolved: Vec<(String, String)> = items[0]
        .labels
        .iter()
        .map(|(k, v)| (table.lookup(*k).unwrap(), table.lookup(*v).unwrap()))
        .collect();
    assert_eq!(
        resolved,
        vec![("__name__".to_string(), "up".to_string()), ("job".to_string(), "node".to_string())]
    );
}
