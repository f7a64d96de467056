//! Service identifiers and their descriptions. The reference dataset is a
//! list of files in a fixed order; in each, a line that bears an identifier
//! is followed by the line that describes it.

use vstd::prelude::*;
use crate::text::{contains_text, lines_of, occurs_in, rows, split_lines, to_chars, to_text};

verus! {

/// The lower-case hexadecimal digit for a number below sixteen.
pub open spec fn lower_hex(n: int) -> char {
    seq!['0', '1', '2', '3', '4', '5', '6', '7', '8', '9', 'a', 'b', 'c', 'd', 'e', 'f'][n]
}

/// Sixteen to the power `e`.
pub open spec fn pow16(e: int) -> int
    decreases e,
{
    if e <= 0 {
        1
    } else {
        16 * pow16(e - 1)
    }
}

/// The hexadecimal digit of `id` at place `k`, place 0 weighing most and
/// place 31 least.
pub open spec fn nibble(id: u128, k: int) -> int {
    (id as int / pow16(31 - k)) % 16
}

/// The number of hyphens that stand before index `i` of the textual form
/// of an identifier.
pub open spec fn hyphens_before(i: int) -> int {
    if i < 8 {
        0
    } else if i < 13 {
        1
    } else if i < 18 {
        2
    } else if i < 23 {
        3
    } else {
        4
    }
}

/// The textual form of a 128-bit service identifier: its 32 lower-case
/// hexadecimal digits in groups of 8, 4, 4, 4 and 12, with hyphens between
/// the groups.
pub open spec fn hyphenated(id: u128) -> Seq<char> {
    Seq::new(
        36,
        |i: int|
            if i == 8 || i == 13 || i == 18 || i == 23 {
                '-'
            } else {
                lower_hex(nibble(id, i - hyphens_before(i)))
            },
    )
}

/// The short form of a service identifier: the fifth to eighth character
/// of its textual form.
pub open spec fn short_form(id: u128) -> Seq<char> {
    hyphenated(id).subrange(4, 8)
}

/// Calls `Uuid::from_u128` and the `to_string` of the result, of the crate
/// uuid. The contract claims that the text is the hyphenated lower-case
/// form of the identifier, which is what that crate's `Display` writes.
#[verifier::external_body]
fn uuid_text(id: u128) -> (s: String)
    ensures
        s@ == hyphenated(id),
{
    uuid::Uuid::from_u128(id).to_string()
}

/// The short form of a service identifier, as characters.
pub fn short_chars(id: u128) -> (v: Vec<char>)
    ensures
        v@ == short_form(id),
{
    let full: String = uuid_text(id);
    let part: &str = full.as_str().substring_char(4, 8);
    to_chars(part)
}

/// The short form of a service identifier.
pub fn short_service_id(id: u128) -> (s: String)
    ensures
        s@ == short_form(id),
        s@.len() == 4,
{
    let v: Vec<char> = short_chars(id);
    to_text(&v)
}

/// The first index at or after `from` of a line in which `id` stands, or
/// the number of lines where there is none.
pub open spec fn first_bearing(lines: Seq<Seq<char>>, id: Seq<char>, from: int) -> int
    decreases lines.len() - from,
{
    if from < 0 || from >= lines.len() {
        lines.len() as int
    } else if occurs_in(lines[from], id) {
        from
    } else {
        first_bearing(lines, id, from + 1)
    }
}

/// Whether some line of a file bears `id`.
pub open spec fn file_bears(lines: Seq<Seq<char>>, id: Seq<char>) -> bool {
    first_bearing(lines, id, 0) < lines.len()
}

/// What a file that bears `id` says of it: the line after the first line
/// that bears it, or nothing where that line is the last.
pub open spec fn file_description(lines: Seq<Seq<char>>, id: Seq<char>) -> Option<Seq<char>> {
    let at = first_bearing(lines, id, 0);
    if 0 <= at && at + 1 < lines.len() {
        Some(lines[at + 1])
    } else {
        None
    }
}

/// What the files from `from` on say of `id`: the answer of the first of
/// them that bears it, whatever later files hold.
pub open spec fn description_from(files: Seq<Seq<Seq<char>>>, id: Seq<char>, from: int) -> Option<
    Seq<char>,
>
    decreases files.len() - from,
{
    if from < 0 || from >= files.len() {
        None
    } else if file_bears(files[from], id) {
        file_description(files[from], id)
    } else {
        description_from(files, id, from + 1)
    }
}

/// What the files say of `id`.
pub open spec fn description_of(files: Seq<Seq<Seq<char>>>, id: Seq<char>) -> Option<Seq<char>> {
    description_from(files, id, 0)
}

/// The first file that bears an identifier decides what is said of it:
/// where file `k` bears `id` and no file before it does, the answer is that
/// of file `k`, whatever the files after it hold.
pub proof fn law_first_file_wins(files: Seq<Seq<Seq<char>>>, id: Seq<char>, k: int)
    requires
        0 <= k < files.len(),
        file_bears(files[k], id),
        forall|j: int| 0 <= j < k ==> !file_bears(#[trigger] files[j], id),
    ensures
        description_of(files, id) == file_description(files[k], id),
{
    lemma_first_file_wins_from(files, id, k, 0);
}

/// The same, read from file `from` on.
pub proof fn lemma_first_file_wins_from(
    files: Seq<Seq<Seq<char>>>,
    id: Seq<char>,
    k: int,
    from: int,
)
    requires
        0 <= from <= k < files.len(),
        file_bears(files[k], id),
        forall|j: int| from <= j < k ==> !file_bears(#[trigger] files[j], id),
    ensures
        description_from(files, id, from) == file_description(files[k], id),
    decreases k - from,
{
    if from < k {
        lemma_first_file_wins_from(files, id, k, from + 1);
    }
}

/// Where no file bears an identifier, nothing is said of it.
pub proof fn law_absent_without_bearer(files: Seq<Seq<Seq<char>>>, id: Seq<char>, from: int)
    requires
        0 <= from,
        forall|j: int| from <= j < files.len() ==> !file_bears(#[trigger] files[j], id),
    ensures
        description_from(files, id, from) is None,
    decreases files.len() - from,
{
    if from < files.len() {
        law_absent_without_bearer(files, id, from + 1);
    }
}

/// The views of the files of a dataset.
pub open spec fn tables(v: Seq<Vec<Vec<char>>>) -> Seq<Seq<Seq<char>>> {
    Seq::new(v.len(), |i: int| rows(v[i]@))
}

/// The lines of each of some texts.
pub open spec fn lines_of_texts(texts: Seq<String>) -> Seq<Seq<Seq<char>>> {
    Seq::new(texts.len(), |i: int| lines_of(texts[i]@))
}

/// A file of the reference dataset.
pub struct ReferenceFile {
    /// The name of the file, by which the files are ordered.
    pub name: String,
    /// What the file holds.
    pub text: String,
}

/// A file of the reference dataset as a mathematical value.
pub ghost struct FileView {
    pub name: Seq<char>,
    pub text: Seq<char>,
}

impl View for ReferenceFile {
    type V = FileView;

    open spec fn view(&self) -> FileView {
        FileView { name: self.name@, text: self.text@ }
    }
}

/// The views of some files.
pub open spec fn file_views(files: Seq<ReferenceFile>) -> Seq<FileView> {
    Seq::new(files.len(), |i: int| files[i]@)
}

/// Whether name `a` stands before name `b` in the dictionary: at the first
/// place where they differ `a` has the lesser character, or `a` ends there
/// and `b` does not.
pub open spec fn name_before(a: Seq<char>, b: Seq<char>) -> bool
    decreases a.len(),
{
    if b.len() == 0 {
        false
    } else if a.len() == 0 {
        true
    } else if a[0] != b[0] {
        (a[0] as u32) < (b[0] as u32)
    } else {
        name_before(a.drop_first(), b.drop_first())
    }
}

/// The index of the file with the least name among the first `m` files,
/// the first of them where several have it.
pub open spec fn least_upto(files: Seq<FileView>, m: int) -> int
    decreases m,
{
    if m <= 1 {
        0
    } else {
        let k = least_upto(files, m - 1);
        if name_before(files[m - 1].name, files[k].name) {
            m - 1
        } else {
            k
        }
    }
}

/// The files in the order of their names: the file with the least name
/// first, then the others in the same manner.
pub open spec fn ordered(files: Seq<FileView>) -> Seq<FileView>
    decreases files.len(),
{
    let k = least_upto(files, files.len() as int);
    if 0 <= k < files.len() {
        seq![files[k]] + ordered(files.remove(k))
    } else {
        Seq::empty()
    }
}

/// No name stands before itself.
pub proof fn lemma_name_not_before_itself(a: Seq<char>)
    ensures
        !name_before(a, a),
    decreases a.len(),
{
    if a.len() > 0 {
        lemma_name_not_before_itself(a.drop_first());
    }
}

/// A name before a second that is before a third is before the third.
pub proof fn lemma_name_before_transitive(a: Seq<char>, b: Seq<char>, c: Seq<char>)
    requires
        name_before(a, b),
        name_before(b, c),
    ensures
        name_before(a, c),
    decreases a.len(),
{
    if a.len() > 0 && a[0] == b[0] && b[0] == c[0] {
        lemma_name_before_transitive(a.drop_first(), b.drop_first(), c.drop_first());
    }
}

/// The least of the first `m` files is one of them, and none of them has a
/// name before its name.
pub proof fn lemma_least_upto(files: Seq<FileView>, m: int)
    requires
        1 <= m <= files.len(),
    ensures
        0 <= least_upto(files, m) < m,
        forall|i: int|
            0 <= i < m ==> !name_before(
                (#[trigger] files[i]).name,
                files[least_upto(files, m)].name,
            ),
    decreases m,
{
    if m > 1 {
        lemma_least_upto(files, m - 1);
        let before = least_upto(files, m - 1);
        let k = least_upto(files, m);
        assert forall|i: int| 0 <= i < m implies !name_before(
            (#[trigger] files[i]).name,
            files[k].name,
        ) by {
            if k == m - 1 && i < m - 1 {
                if name_before(files[i].name, files[k].name) {
                    lemma_name_before_transitive(files[i].name, files[k].name, files[before].name);
                }
            } else if i == k {
                lemma_name_not_before_itself(files[i].name);
            }
        }
    } else {
        lemma_name_not_before_itself(files[0].name);
    }
}

/// The files in the order of their names are the same files, and none of
/// them stands after one whose name is before its own.
pub proof fn law_ordered_by_name(files: Seq<FileView>)
    ensures
        ordered(files).len() == files.len(),
        forall|f: FileView| files.contains(f) <==> ordered(files).contains(f),
        forall|i: int, j: int|
            0 <= i < j < files.len() ==> !name_before(
                (#[trigger] ordered(files)[j]).name,
                (#[trigger] ordered(files)[i]).name,
            ),
    decreases files.len(),
{
    if files.len() > 0 {
        lemma_least_upto(files, files.len() as int);
        let k = least_upto(files, files.len() as int);
        let rest = files.remove(k);
        let out = ordered(files);
        law_ordered_by_name(rest);
        assert(out =~= seq![files[k]] + ordered(rest));
        assert forall|f: FileView| files.contains(f) implies out.contains(f) by {
            let i = choose|i: int| 0 <= i < files.len() && files[i] == f;
            if i == k {
                assert(out[0] == f);
            } else {
                let at = if i < k {
                    i
                } else {
                    i - 1
                };
                assert(rest[at] == f);
                assert(rest.contains(f));
                assert(ordered(rest).contains(f));
                let j = choose|j: int| 0 <= j < ordered(rest).len() && ordered(rest)[j] == f;
                assert(out[j + 1] == f);
            }
        }
        assert forall|f: FileView| out.contains(f) implies files.contains(f) by {
            let j = choose|j: int| 0 <= j < out.len() && out[j] == f;
            if j > 0 {
                assert(ordered(rest)[j - 1] == f);
                assert(ordered(rest).contains(f));
                assert(rest.contains(f));
                let i = choose|i: int| 0 <= i < rest.len() && rest[i] == f;
                let at = if i < k {
                    i
                } else {
                    i + 1
                };
                assert(files[at] == f);
            }
        }
        assert forall|i: int, j: int| 0 <= i < j < files.len() implies !name_before(
            (#[trigger] out[j]).name,
            (#[trigger] out[i]).name,
        ) by {
            assert(out[j] == ordered(rest)[j - 1]);
            if i == 0 {
                assert(out.contains(out[j]));
                assert(files.contains(out[j]));
                let at = choose|at: int| 0 <= at < files.len() && files[at] == out[j];
                assert(!name_before(files[at].name, files[k].name));
            } else {
                assert(out[i] == ordered(rest)[i - 1]);
            }
        }
    }
}

/// The lines of each of some files.
pub open spec fn lines_of_files(files: Seq<FileView>) -> Seq<Seq<Seq<char>>> {
    Seq::new(files.len(), |i: int| lines_of(files[i].text))
}

/// Tells whether name `a` stands before name `b` in the dictionary.
pub fn comes_before(a: &Vec<char>, b: &Vec<char>) -> (r: bool)
    ensures
        r == name_before(a@, b@),
{
    let n: usize = a.len();
    let m: usize = b.len();
    let mut i: usize = 0;
    assert(a@.skip(0) =~= a@ && b@.skip(0) =~= b@);
    while i < n && i < m
        invariant
            i <= n,
            i <= m,
            n == a@.len(),
            m == b@.len(),
            name_before(a@, b@) == name_before(a@.skip(i as int), b@.skip(i as int)),
        decreases n - i,
    {
        assert(a@.skip(i as int)[0] == a@[i as int] && b@.skip(i as int)[0] == b@[i as int]);
        assert(a@.skip(i as int).drop_first() =~= a@.skip(i + 1));
        assert(b@.skip(i as int).drop_first() =~= b@.skip(i + 1));
        if a[i] != b[i] {
            return (a[i] as u32) < (b[i] as u32);
        }
        i = i + 1;
    }
    i < m
}

/// The index of the file with the least name, the first of them where
/// several have it.
pub fn least_file(files: &Vec<ReferenceFile>) -> (k: usize)
    requires
        files@.len() > 0,
    ensures
        k == least_upto(file_views(files@), files@.len() as int),
        k < files@.len(),
{
    let n: usize = files.len();
    let mut k: usize = 0;
    let mut m: usize = 1;
    while m < n
        invariant
            1 <= m <= n,
            k < m,
            n == files@.len(),
            k == least_upto(file_views(files@), m as int),
        decreases n - m,
    {
        let a: Vec<char> = to_chars(files[m].name.as_str());
        let b: Vec<char> = to_chars(files[k].name.as_str());
        assert(file_views(files@)[m as int] == files@[m as int]@);
        assert(file_views(files@)[k as int] == files@[k as int]@);
        if comes_before(&a, &b) {
            k = m;
        }
        m = m + 1;
    }
    k
}

/// What a search through one file found.
pub enum FileAnswer {
    /// No line of the file bears the identifier.
    NotBorne,
    /// A line bears it and is the last of the file.
    Undescribed,
    /// A line bears it and the next line is this one.
    Described(String),
}

/// Searches one file for an identifier.
pub fn search_file(lines: &Vec<Vec<char>>, id: &Vec<char>) -> (r: FileAnswer)
    ensures
        r is NotBorne <==> !file_bears(rows(lines@), id@),
        r is Undescribed <==> file_bears(rows(lines@), id@) && file_description(
            rows(lines@),
            id@,
        ) is None,
        r is Described ==> file_description(rows(lines@), id@) == Some(r->Described_0@),
{
    let n: usize = lines.len();
    let mut i: usize = 0;
    while i < n
        invariant
            i <= n,
            n == lines@.len(),
            first_bearing(rows(lines@), id@, 0) == first_bearing(rows(lines@), id@, i as int),
        decreases n - i,
    {
        assert(rows(lines@)[i as int] == lines@[i as int]@);
        if contains_text(&lines[i], id) {
            if i + 1 < n {
                assert(rows(lines@)[i + 1] == lines@[i + 1]@);
                return FileAnswer::Described(to_text(&lines[i + 1]));
            } else {
                return FileAnswer::Undescribed;
            }
        }
        i = i + 1;
    }
    FileAnswer::NotBorne
}

/// The index of service descriptions: the lines of the reference files, in
/// the order in which the files are searched.
pub struct ServiceDescriptorIndex {
    files: Vec<Vec<Vec<char>>>,
}

impl View for ServiceDescriptorIndex {
    type V = Seq<Seq<Seq<char>>>;

    /// The files, each as its lines.
    closed spec fn view(&self) -> Seq<Seq<Seq<char>>> {
        tables(self.files@)
    }
}

impl ServiceDescriptorIndex {
    /// The index over the given file texts, searched in the order given.
    pub fn build(texts: &Vec<String>) -> (index: ServiceDescriptorIndex)
        ensures
            index@ == lines_of_texts(texts@),
    {
        let n: usize = texts.len();
        let mut files: Vec<Vec<Vec<char>>> = Vec::new();
        let mut i: usize = 0;
        while i < n
            invariant
                i <= n,
                n == texts@.len(),
                files@.len() == i,
                forall|j: int| 0 <= j < i ==> rows(#[trigger] files@[j]@) == lines_of(texts@[j]@),
            decreases n - i,
        {
            let chars: Vec<char> = to_chars(texts[i].as_str());
            let lines: Vec<Vec<char>> = split_lines(&chars);
            files.push(lines);
            i = i + 1;
        }
        let index = ServiceDescriptorIndex { files };
        assert(index@ =~= lines_of_texts(texts@));
        index
    }

    /// The index over the given files, searched in the order of their
    /// names.
    pub fn from_files(files: Vec<ReferenceFile>) -> (index: ServiceDescriptorIndex)
        ensures
            index@ == lines_of_files(ordered(file_views(files@))),
    {
        let ghost all = file_views(files@);
        let mut rest: Vec<ReferenceFile> = files;
        let mut texts: Vec<String> = Vec::new();
        let ghost mut done: Seq<FileView> = Seq::empty();
        assert(done + ordered(file_views(rest@)) =~= ordered(all));
        while rest.len() > 0
            invariant
                done + ordered(file_views(rest@)) == ordered(all),
                texts@.len() == done.len(),
                forall|i: int| 0 <= i < done.len() ==> (#[trigger] texts@[i])@ == done[i].text,
            decreases rest@.len(),
        {
            let ghost before = file_views(rest@);
            let k: usize = least_file(&rest);
            assert(before[k as int] == rest@[k as int]@);
            let file: ReferenceFile = rest.remove(k);
            proof {
                assert(file_views(rest@) =~= before.remove(k as int));
                assert(done.push(file@) + ordered(file_views(rest@)) =~= done + ordered(before));
                done = done.push(file@);
            }
            texts.push(file.text);
        }
        proof {
            assert(ordered(file_views(rest@)) =~= Seq::<FileView>::empty());
            assert(done =~= ordered(all));
        }
        let index = ServiceDescriptorIndex::build(&texts);
        assert(index@ =~= lines_of_files(ordered(all)));
        index
    }

    /// The number of files.
    pub fn file_count(&self) -> (n: usize)
        ensures
            n == self@.len(),
    {
        self.files.len()
    }

    /// The description of a short service identifier: the answer of the
    /// first file in which a line bears it.
    pub fn lookup(&self, service_id: &str) -> (r: Option<String>)
        ensures
            r is Some <==> description_of(self@, service_id@) is Some,
            r is Some ==> r->0@ == description_of(self@, service_id@)->0,
    {
        let id: Vec<char> = to_chars(service_id);
        let n: usize = self.files.len();
        let mut i: usize = 0;
        while i < n
            invariant
                i <= n,
                n == self.files@.len(),
                id@ == service_id@,
                description_of(self@, id@) == description_from(self@, id@, i as int),
            decreases n - i,
        {
            assert(self@[i as int] == rows(self.files@[i as int]@));
            match search_file(&self.files[i], &id) {
                FileAnswer::Described(text) => {
                    return Some(text);
                },
                FileAnswer::Undescribed => {
                    return None;
                },
                FileAnswer::NotBorne => {},
            }
            i = i + 1;
        }
        None
    }
}

/// The description of a short service identifier by the index.
pub fn find_service_info(index: &ServiceDescriptorIndex, service_id: &str) -> (r: Option<String>)
    ensures
        r is Some <==> description_of(index@, service_id@) is Some,
        r is Some ==> r->0@ == description_of(index@, service_id@)->0,
{
    index.lookup(service_id)
}

} // verus!
