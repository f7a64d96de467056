//! The vendor table: from the first three octets of a hardware address to
//! the name of the maker, read once from a line-oriented dataset.

use vstd::prelude::*;
use std::collections::HashMap;
use crate::address::HardwareAddress;
use crate::text::{fields_of, join_fields, join_spaced, lines_of, rows, split_fields, split_lines, to_chars, to_text};

verus! {

/// The value of a hexadecimal digit of either case.
pub open spec fn hex_value(c: char) -> Option<int> {
    match c {
        '0' => Some(0),
        '1' => Some(1),
        '2' => Some(2),
        '3' => Some(3),
        '4' => Some(4),
        '5' => Some(5),
        '6' => Some(6),
        '7' => Some(7),
        '8' => Some(8),
        '9' => Some(9),
        'a' | 'A' => Some(10),
        'b' | 'B' => Some(11),
        'c' | 'C' => Some(12),
        'd' | 'D' => Some(13),
        'e' | 'E' => Some(14),
        'f' | 'F' => Some(15),
        _ => None,
    }
}

/// The octet that two hexadecimal digits spell.
pub open spec fn octet_value(high: char, low: char) -> Option<int> {
    match (hex_value(high), hex_value(low)) {
        (Some(h), Some(l)) => Some(h * 16 + l),
        _ => None,
    }
}

/// The prefix that a field of the form `HH:HH:HH` spells, each `H` a
/// hexadecimal digit of either case. Any other field spells none.
pub open spec fn prefix_of_field(f: Seq<char>) -> Option<int> {
    if f.len() == 8 && f[2] == ':' && f[5] == ':' {
        match (octet_value(f[0], f[1]), octet_value(f[3], f[4]), octet_value(f[6], f[7])) {
            (Some(a), Some(b), Some(c)) => Some(a * 0x1_0000 + b * 0x100 + c),
            _ => None,
        }
    } else {
        None
    }
}

/// The prefix that a line of the dataset gives a name to: none where the
/// line starts with `#`, has fewer than three fields (a blank line has
/// none) or its first field spells no prefix.
#[verifier::opaque]
pub open spec fn entry_prefix(line: Seq<char>) -> Option<int> {
    let fields = fields_of(line);
    if line.len() > 0 && line[0] == '#' {
        None
    } else if fields.len() < 3 {
        None
    } else {
        prefix_of_field(fields[0])
    }
}

/// The name that a line of the dataset gives: its fields from the third
/// on, with single spaces between them.
pub open spec fn entry_name(line: Seq<char>) -> Seq<char> {
    join_spaced(fields_of(line), 2)
}

/// The table that some lines spell: each line adds its entry, a later line
/// replacing what an earlier one said of the same prefix.
pub open spec fn table_of_lines(lines: Seq<Seq<char>>) -> Map<int, Seq<char>>
    decreases lines.len(),
{
    if lines.len() == 0 {
        Map::empty()
    } else {
        let before = table_of_lines(lines.drop_last());
        match entry_prefix(lines.last()) {
            Some(p) => before.insert(p, entry_name(lines.last())),
            None => before,
        }
    }
}

/// The table that a dataset spells.
pub open spec fn table_of_text(source: Seq<char>) -> Map<int, Seq<char>> {
    table_of_lines(lines_of(source))
}

/// Lookup is exact: a table has a name for a prefix where a line of the
/// dataset names exactly that prefix, and for no other prefix.
pub proof fn law_lookup_exact(lines: Seq<Seq<char>>, p: int)
    ensures
        table_of_lines(lines).contains_key(p) <==> exists|i: int|
            0 <= i < lines.len() && entry_prefix(#[trigger] lines[i]) == Some(p),
    decreases lines.len(),
{
    if lines.len() > 0 {
        let before = lines.drop_last();
        law_lookup_exact(before, p);
        if table_of_lines(lines).contains_key(p) {
            if entry_prefix(lines.last()) == Some(p) {
                assert(entry_prefix(lines[lines.len() - 1]) == Some(p));
            } else {
                let i = choose|i: int|
                    0 <= i < before.len() && entry_prefix(#[trigger] before[i]) == Some(p);
                assert(entry_prefix(lines[i]) == Some(p));
            }
        }
        if exists|i: int| 0 <= i < lines.len() && entry_prefix(#[trigger] lines[i]) == Some(p) {
            let i = choose|i: int|
                0 <= i < lines.len() && entry_prefix(#[trigger] lines[i]) == Some(p);
            if i < before.len() {
                assert(entry_prefix(before[i]) == Some(p));
            }
        }
    }
}

/// The last line that names a prefix gives it its name.
pub proof fn law_last_line_wins(lines: Seq<Seq<char>>)
    requires
        lines.len() > 0,
        entry_prefix(lines.last()) is Some,
    ensures
        table_of_lines(lines)[entry_prefix(lines.last())->0] == entry_name(lines.last()),
{
}

/// The upper-case hexadecimal digit for a number below sixteen.
#[verifier::opaque]
pub open spec fn upper_hex(n: int) -> char {
    seq!['0', '1', '2', '3', '4', '5', '6', '7', '8', '9', 'A', 'B', 'C', 'D', 'E', 'F'][n]
}

/// A prefix as text: its three octets in upper-case hexadecimal digits, two
/// each, with colons between them.
pub open spec fn prefix_text(p: int) -> Seq<char> {
    seq![
        upper_hex((p / 0x10_0000) % 16),
        upper_hex((p / 0x1_0000) % 16),
        ':',
        upper_hex((p / 0x1000) % 16),
        upper_hex((p / 0x100) % 16),
        ':',
        upper_hex((p / 0x10) % 16),
        upper_hex(p % 16),
    ]
}

/// A hexadecimal digit spells the number it was written for.
pub proof fn lemma_upper_hex_reads_back(n: int)
    requires
        0 <= n < 16,
    ensures
        hex_value(upper_hex(n)) == Some(n),
{
    reveal(upper_hex);
}

/// Two hexadecimal digits spell the octet they were written for.
pub proof fn lemma_octet_reads_back(high: int, low: int)
    requires
        0 <= high < 16,
        0 <= low < 16,
    ensures
        octet_value(upper_hex(high), upper_hex(low)) == Some(high * 16 + low),
{
    lemma_upper_hex_reads_back(high);
    lemma_upper_hex_reads_back(low);
}

/// A number below 2^24 is the sum of its six hexadecimal digits, each
/// weighed by its place.
pub proof fn lemma_six_digits(p: int)
    requires
        0 <= p < 0x100_0000,
    ensures
        p == (((p / 0x10_0000) % 16) * 16 + (p / 0x1_0000) % 16) * 0x1_0000 + (((p / 0x1000) % 16)
            * 16 + (p / 0x100) % 16) * 0x100 + (((p / 0x10) % 16) * 16 + p % 16),
{
    let q: u32 = p as u32;
    assert(q == (((q / 0x10_0000u32) % 16u32) * 16u32 + (q / 0x1_0000u32) % 16u32) * 0x1_0000u32
        + (((q / 0x1000u32) % 16u32) * 16u32 + (q / 0x100u32) % 16u32) * 0x100u32 + (((q
        / 0x10u32) % 16u32) * 16u32 + q % 16u32)) by (bit_vector)
        requires
            q < 0x100_0000u32,
    ;
}

/// The text of a prefix spells that prefix: a line of the dataset that
/// starts with the text of an address prefix is a line for that prefix.
pub proof fn law_prefix_text_reads_back(p: int)
    requires
        0 <= p < 0x100_0000,
    ensures
        prefix_of_field(prefix_text(p)) == Some(p),
{
    let t = prefix_text(p);
    lemma_octet_reads_back((p / 0x10_0000) % 16, (p / 0x1_0000) % 16);
    lemma_octet_reads_back((p / 0x1000) % 16, (p / 0x100) % 16);
    lemma_octet_reads_back((p / 0x10) % 16, p % 16);
    lemma_six_digits(p);
}

/// The upper-case hexadecimal digit for a number below sixteen.
pub fn upper_hex_digit(n: u32) -> (c: char)
    requires
        n < 16,
    ensures
        c == upper_hex(n as int),
{
    reveal(upper_hex);
    match n {
        0 => '0',
        1 => '1',
        2 => '2',
        3 => '3',
        4 => '4',
        5 => '5',
        6 => '6',
        7 => '7',
        8 => '8',
        9 => '9',
        10 => 'A',
        11 => 'B',
        12 => 'C',
        13 => 'D',
        14 => 'E',
        _ => 'F',
    }
}

/// The prefix of an address as text, in the form in which the dataset
/// writes it.
pub fn prefix_string(address: &HardwareAddress) -> (s: String)
    ensures
        s@ == prefix_text(address.prefix()),
{
    let p: u32 = address.prefix_key();
    let mut v: Vec<char> = Vec::new();
    v.push(upper_hex_digit((p / 0x10_0000) % 16));
    v.push(upper_hex_digit((p / 0x1_0000) % 16));
    v.push(':');
    v.push(upper_hex_digit((p / 0x1000) % 16));
    v.push(upper_hex_digit((p / 0x100) % 16));
    v.push(':');
    v.push(upper_hex_digit((p / 0x10) % 16));
    v.push(upper_hex_digit(p % 16));
    assert(v@ =~= prefix_text(address.prefix()));
    to_text(&v)
}

/// Reads a hexadecimal digit.
pub fn hex_digit(c: char) -> (r: Option<u32>)
    ensures
        r is Some <==> hex_value(c) is Some,
        r is Some ==> r->0 == hex_value(c)->0 && r->0 < 16,
{
    match c {
        '0' => Some(0),
        '1' => Some(1),
        '2' => Some(2),
        '3' => Some(3),
        '4' => Some(4),
        '5' => Some(5),
        '6' => Some(6),
        '7' => Some(7),
        '8' => Some(8),
        '9' => Some(9),
        'a' | 'A' => Some(10),
        'b' | 'B' => Some(11),
        'c' | 'C' => Some(12),
        'd' | 'D' => Some(13),
        'e' | 'E' => Some(14),
        'f' | 'F' => Some(15),
        _ => None,
    }
}

/// Reads the octet that two hexadecimal digits spell.
pub fn read_octet(high: char, low: char) -> (r: Option<u32>)
    ensures
        r is Some <==> octet_value(high, low) is Some,
        r is Some ==> r->0 == octet_value(high, low)->0 && r->0 < 256,
{
    match (hex_digit(high), hex_digit(low)) {
        (Some(h), Some(l)) => Some(h * 16 + l),
        _ => None,
    }
}

/// Reads the prefix that a field spells.
pub fn read_prefix(f: &Vec<char>) -> (r: Option<u32>)
    ensures
        r is Some <==> prefix_of_field(f@) is Some,
        r is Some ==> r->0 == prefix_of_field(f@)->0 && r->0 < 0x100_0000,
{
    if f.len() != 8 || f[2] != ':' || f[5] != ':' {
        return None;
    }
    match (read_octet(f[0], f[1]), read_octet(f[3], f[4]), read_octet(f[6], f[7])) {
        (Some(a), Some(b), Some(c)) => Some(a * 0x1_0000 + b * 0x100 + c),
        _ => None,
    }
}

/// A prefix and the name that a line gives to it.
pub struct VendorEntry {
    /// The prefix, below 2^24.
    pub prefix: u32,
    /// The name of the vendor.
    pub name: String,
}

/// Reads what a line of the dataset adds to the table.
pub fn read_entry(line: &Vec<char>) -> (r: Option<VendorEntry>)
    ensures
        r is Some <==> entry_prefix(line@) is Some,
        r is Some ==> r->0.prefix == entry_prefix(line@)->0 && r->0.name@ == entry_name(line@),
{
    reveal(entry_prefix);
    if line.len() > 0 && line[0] == '#' {
        return None;
    }
    let fields: Vec<Vec<char>> = split_fields(line);
    if fields.len() < 3 {
        return None;
    }
    assert(rows(fields@)[0] == fields@[0]@);
    match read_prefix(&fields[0]) {
        Some(p) => {
            let name: Vec<char> = join_fields(&fields, 2);
            Some(VendorEntry { prefix: p, name: to_text(&name) })
        },
        None => None,
    }
}

/// The vendor table. It is built once and only read afterwards.
pub struct VendorTable {
    entries: HashMap<u32, String>,
}

impl View for VendorTable {
    type V = Map<int, Seq<char>>;

    /// The table as a map from prefix to name.
    closed spec fn view(&self) -> Map<int, Seq<char>> {
        Map::new(
            |p: int| 0 <= p <= u32::MAX && self.entries@.contains_key(p as u32),
            |p: int| self.entries@[p as u32]@,
        )
    }
}

impl VendorTable {
    /// The table without entries.
    pub fn empty() -> (t: VendorTable)
        ensures
            t@ == Map::<int, Seq<char>>::empty(),
    {
        let t = VendorTable { entries: HashMap::new() };
        assert(t@ =~= Map::<int, Seq<char>>::empty());
        t
    }

    /// Builds the table from the text of a dataset.
    pub fn build(source: &str) -> (t: VendorTable)
        ensures
            t@ == table_of_text(source@),
    {
        broadcast use vstd::std_specs::hash::group_hash_axioms;

        let chars: Vec<char> = to_chars(source);
        let lines: Vec<Vec<char>> = split_lines(&chars);
        let n: usize = lines.len();
        let mut t = VendorTable { entries: HashMap::new() };
        let mut i: usize = 0;
        assert(t@ =~= table_of_lines(rows(lines@).take(0)));
        while i < n
            invariant
                i <= n,
                n == lines@.len(),
                t@ == table_of_lines(rows(lines@).take(i as int)),
            decreases n - i,
        {
            let ghost before = t@;
            proof {
                assert(rows(lines@).take(i + 1).drop_last() =~= rows(lines@).take(i as int));
                assert(rows(lines@).take(i + 1).last() == lines@[i as int]@);
            }
            match read_entry(&lines[i]) {
                Some(entry) => {
                    let ghost p = entry.prefix;
                    let ghost text = entry.name@;
                    t.entries.insert(entry.prefix, entry.name);
                    assert(t@ =~= before.insert(p as int, text));
                },
                None => {},
            }
            i = i + 1;
        }
        assert(rows(lines@).take(n as int) =~= rows(lines@));
        t
    }

    /// The name that the table holds for the first three octets of
    /// `address`, if it holds one. Nothing else of the address is read.
    pub fn lookup(&self, address: &HardwareAddress) -> (r: Option<String>)
        ensures
            r is Some <==> self@.contains_key(address.prefix()),
            r is Some ==> r->0@ == self@[address.prefix()],
    {
        broadcast use vstd::std_specs::hash::group_hash_axioms;

        let key: u32 = address.prefix_key();
        match self.entries.get(&key) {
            Some(name) => Some(name.clone()),
            None => None,
        }
    }
}

/// The vendor of an address by the table, if the table names one.
pub fn find_vendor(table: &VendorTable, address: &HardwareAddress) -> (r: Option<String>)
    ensures
        r is Some <==> table@.contains_key(address.prefix()),
        r is Some ==> r->0@ == table@[address.prefix()],
{
    table.lookup(address)
}

/// The table of a dataset, built from its text.
pub fn load_mac_vendor_map(source: &str) -> (t: VendorTable)
    ensures
        t@ == table_of_text(source@),
{
    VendorTable::build(source)
}

} // verus!
