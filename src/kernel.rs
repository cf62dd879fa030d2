//! Kernel versions and boot-loader entries: parsing file names, naming
//! files, and deciding what an installation writes and removes.
use vstd::prelude::*;
use crate::text::{has_prefix, starts_with, decimal, first_index, last_index, parse_u32, parse_u32_spec, push_decimal,
    push_text, split, split_spec, string_views, find_first, find_last, substring};

verus! {

/// A kernel version such as `5.8.1-3`: version, major, optional minor, and
/// optional revision. Versions compare field by field in that order.
#[derive(PartialEq, Eq, Structural, PartialOrd, Ord, Copy, Clone, Debug)]
pub struct KernelVersion {
    pub version: u32,
    pub major: u32,
    pub minor: Option<u32>,
    pub revision: Option<u32>,
}

/// The numbers among the pieces, in order; pieces that are not numbers
/// are skipped.
pub open spec fn numeric_pieces(pieces: Seq<Seq<char>>) -> Seq<u32>
    decreases pieces.len(),
{
    if pieces.len() == 0 {
        Seq::empty()
    } else {
        let rest = numeric_pieces(pieces.drop_last());
        match parse_u32_spec(pieces.last()) {
            Some(v) => rest.push(v),
            None => rest,
        }
    }
}

/// The fields of a dotted version: two or three numbers.
pub open spec fn version_field_spec(s: Seq<char>) -> Option<(u32, u32, Option<u32>)> {
    let e = numeric_pieces(split_spec(s, '.'));
    if e.len() == 2 {
        Some((e[0], e[1], None))
    } else if e.len() == 3 {
        Some((e[0], e[1], Some(e[2])))
    } else {
        None
    }
}

/// The kernel version a string such as `5.8.1-3` denotes, if any.
pub open spec fn kernel_version_spec(s: Seq<char>) -> Option<KernelVersion> {
    let p = split_spec(s, '-');
    let revision = if p.len() > 1 { parse_u32_spec(p[1]) } else { None };
    match version_field_spec(p[0]) {
        Some(f) => Some(KernelVersion { version: f.0, major: f.1, minor: f.2, revision }),
        None => None,
    }
}

/// What follows the first occurrence of `c`, if `c` occurs.
pub open spec fn after_first(s: Seq<char>, c: char) -> Option<Seq<char>> {
    match first_index(s, c) {
        Some(i) => Some(s.skip(i + 1)),
        None => None,
    }
}

/// The kernel version in a file name such as `bzImage-5.8.1`.
pub open spec fn file_name_version(f: Seq<char>) -> Option<KernelVersion> {
    match after_first(f, '-') {
        Some(v) => kernel_version_spec(v),
        None => None,
    }
}

/// The final component of a path, as `Path::file_name` gives it.
pub uninterp spec fn file_name_of(path: Seq<char>) -> Option<Seq<char>>;

/// Relies on `std::path::Path::file_name`: the final component of the path,
/// where it has one.
#[verifier::external_body]
fn path_file_name(path: &str) -> (r: Option<String>)
    ensures
        match r {
            Some(f) => file_name_of(path@) == Some(f@),
            None => file_name_of(path@) is None,
        },
{
    match std::path::Path::new(path).file_name() {
        Some(f) => f.to_str().map(String::from),
        None => None,
    }
}

/// The text of a version without its revision.
pub open spec fn version_text(v: KernelVersion) -> Seq<char> {
    decimal(v.version as nat) + "."@ + decimal(v.major as nat) + match v.minor {
        Some(m) => "."@ + decimal(m as nat),
        None => Seq::empty(),
    }
}

/// The full text of a version, with its revision.
pub open spec fn full_version_text(v: KernelVersion) -> Seq<char> {
    version_text(v) + match v.revision {
        Some(r) => "-"@ + decimal(r as nat),
        None => Seq::empty(),
    }
}

impl KernelVersion {
    /// The kernel version that `s` denotes, where it is one.
    pub fn parse_from_str(s: &str) -> (r: Option<KernelVersion>)
        ensures
            r == kernel_version_spec(s@),
    {
        let pieces = split(s, '-');
        proof {
            lemma_split_nonempty(s@, '-');
        }
        assert(pieces@[0]@ == split_spec(s@, '-')[0]);
        let fields = Self::parse_version_field(pieces[0].as_str());
        let revision = if pieces.len() > 1 {
            assert(pieces@[1]@ == split_spec(s@, '-')[1]);
            parse_u32(pieces[1].as_str())
        } else {
            None
        };
        match fields {
            Some(f) => Some(KernelVersion { version: f.0, major: f.1, minor: f.2, revision }),
            None => None,
        }
    }

    /// The kernel version in a path such as `/boot/bzImage-5.8.1`.
    pub fn parse_from_path(path: &str) -> (r: Option<KernelVersion>)
        ensures
            r == match file_name_of(path@) {
                Some(f) => file_name_version(f),
                None => None,
            },
    {
        match path_file_name(path) {
            Some(f) => Self::parse_from_file_name(f.as_str()),
            None => None,
        }
    }

    /// The kernel version in a file name such as `bzImage-5.8.1`: what
    /// follows its first `-`.
    pub fn parse_from_file_name(fname: &str) -> (r: Option<KernelVersion>)
        ensures
            r == file_name_version(fname@),
    {
        match Self::path_version_string(fname) {
            Some(v) => Self::parse_from_str(v.as_str()),
            None => None,
        }
    }

    /// What follows the first `-` of a file name.
    pub fn path_version_string(fname: &str) -> (r: Option<String>)
        ensures
            match r {
                Some(v) => after_first(fname@, '-') == Some(v@),
                None => after_first(fname@, '-') is None,
            },
    {
        match find_first(fname, '-') {
            Some(i) => {
                let n = fname.unicode_len();
                let v = substring(fname, i + 1, n);
                assert(v@ =~= fname@.skip(i + 1));
                Some(v)
            },
            None => None,
        }
    }

    /// The fields of a dotted version such as `5.8.1`: the pieces between
    /// dots that are numbers, which must be two or three.
    pub fn parse_version_field(s: &str) -> (r: Option<(u32, u32, Option<u32>)>)
        ensures
            r == version_field_spec(s@),
    {
        let pieces = split(s, '.');
        let mut elems: Vec<u32> = Vec::new();
        let ghost ps = string_views(pieces@);
        let mut i: usize = 0;
        assert(ps.take(0) =~= Seq::<Seq<char>>::empty());
        while i < pieces.len()
            invariant
                i <= pieces@.len(),
                ps == string_views(pieces@),
                elems@ == numeric_pieces(ps.take(i as int)),
            decreases pieces@.len() - i,
        {
            assert(ps.take(i + 1).drop_last() =~= ps.take(i as int));
            assert(ps.take(i + 1).last() == pieces@[i as int]@);
            match parse_u32(pieces[i].as_str()) {
                Some(v) => elems.push(v),
                None => {},
            }
            i = i + 1;
        }
        assert(ps.take(i as int) =~= ps);
        if elems.len() == 2 {
            Some((elems[0], elems[1], None))
        } else if elems.len() == 3 {
            Some((elems[0], elems[1], Some(elems[2])))
        } else {
            None
        }
    }

    /// The version as text, without its revision: `5.8.1`.
    pub fn version(&self) -> (r: String)
        ensures
            r@ == version_text(*self),
    {
        let mut s = String::new();
        push_decimal(&mut s, self.version);
        push_text(&mut s, ".");
        push_decimal(&mut s, self.major);
        if let Some(m) = self.minor {
            push_text(&mut s, ".");
            push_decimal(&mut s, m);
        }
        assert(s@ =~= version_text(*self));
        s
    }

    /// The version as text, with its revision: `5.8.1-3`.
    pub fn to_string(&self) -> (r: String)
        ensures
            r@ == full_version_text(*self),
    {
        let mut s = self.version();
        if let Some(r) = self.revision {
            push_text(&mut s, "-");
            push_decimal(&mut s, r);
        }
        assert(s@ =~= full_version_text(*self));
        s
    }
}

/// Whether `s` ends with `.conf`.
pub open spec fn ends_with_conf(s: Seq<char>) -> bool {
    let n = s.len() as int;
    n >= 5 && s[n - 5] == '.' && s[n - 4] == 'c' && s[n - 3] == 'o' && s[n - 2] == 'n' && s[n - 1] == 'f'
}

/// `s` with every trailing `.conf` removed.
pub open spec fn trim_conf(s: Seq<char>) -> Seq<char>
    decreases s.len(),
{
    if ends_with_conf(s) { trim_conf(s.take(s.len() - 5)) } else { s }
}

/// The name, index and boot count in a boot entry file name of the form
/// `name.index+count.conf`, where only the name is mandatory.
pub open spec fn entry_filename_spec(f: Seq<char>) -> (Seq<char>, Option<u32>, Option<Seq<char>>) {
    let t = trim_conf(f);
    let (name, count) = match first_index(t, '+') {
        Some(i) => (t.take(i), Some(t.skip(i + 1))),
        None => (t, None),
    };
    match last_index(name, '.') {
        Some(j) => match parse_u32_spec(name.skip(j + 1)) {
            Some(n) => (name.take(j), Some(n), count),
            None => (name, None, count),
        },
        None => (name, None, count),
    }
}

/// The file name of a boot entry.
pub open spec fn entry_file_name(name: Seq<char>, index: Option<u32>, count: Option<Seq<char>>) -> Seq<char> {
    name + match index {
        Some(i) => "."@ + decimal(i as nat),
        None => Seq::empty(),
    } + match count {
        Some(c) => "+"@ + c + ".conf"@,
        None => ".conf"@,
    }
}

/// The title of an entry for a kernel of the given version.
pub open spec fn title_text(v: Option<KernelVersion>) -> Seq<char> {
    match v {
        Some(v) => "Subgraph OS (Citadel "@ + full_version_text(v) + ")"@,
        None => "Subgraph OS (Citadel)"@,
    }
}

/// The lines of a text as `str::lines` gives them: split at line feeds,
/// with no last line where the text ends with one, and a carriage return
/// before a line feed removed.
pub open spec fn text_lines(s: Seq<char>) -> Seq<Seq<char>> {
    let pieces = split_spec(s, '\n');
    let kept = if pieces.last().len() == 0 { pieces.drop_last() } else { pieces };
    Seq::new(kept.len(), |i: int| if i < pieces.len() - 1 { strip_cr(kept[i]) } else { kept[i] })
}

/// A line without the carriage return that ends it, if any.
pub open spec fn strip_cr(l: Seq<char>) -> Seq<char> {
    if l.len() > 0 && l.last() == '\r' { l.drop_last() } else { l }
}

/// What the lines of a boot entry file give: the last title, every kernel
/// path in order, and the last options.
pub open spec fn entry_fields(lines: Seq<Seq<char>>) -> (Seq<char>, Seq<Seq<char>>, Seq<char>)
    decreases lines.len(),
{
    if lines.len() == 0 {
        (Seq::empty(), Seq::empty(), Seq::empty())
    } else {
        let f = entry_fields(lines.drop_last());
        let l = lines.last();
        if has_prefix(l, "title "@) {
            (l.skip(6), f.1, f.2)
        } else if has_prefix(l, "linux /"@) {
            (f.0, f.1.push("/boot/"@ + l.skip(7)), f.2)
        } else if has_prefix(l, "options "@) {
            (f.0, f.1, l.skip(8))
        } else {
            f
        }
    }
}

/// Why a boot entry file was refused.
#[derive(PartialEq, Eq, Structural, Clone, Copy, Debug)]
pub enum EntryError {
    NoTitle,
    NoKernel,
    NoOptions,
}

/// The fields of a boot entry file.
pub struct EntryContents {
    pub title: String,
    /// The kernel paths of its `linux` lines, in order; the last one is the
    /// entry's kernel.
    pub kernels: Vec<String>,
    pub options: String,
}

/// What reading a boot entry file gives: its fields, or the first of the
/// title, kernel and options that it lacks. Unexpected lines are skipped.
pub open spec fn entry_contents_spec(text: Seq<char>) -> Result<(Seq<char>, Seq<Seq<char>>, Seq<char>), EntryError> {
    let f = entry_fields(text_lines(text));
    if f.0.len() == 0 {
        Err(EntryError::NoTitle)
    } else if f.1.len() == 0 {
        Err(EntryError::NoKernel)
    } else if f.2.len() == 0 {
        Err(EntryError::NoOptions)
    } else {
        Ok(f)
    }
}

/// A kernel image: where it is, its version, and its SHA-256 digest as
/// text.
pub struct KernelBzImage {
    pub path: String,
    pub version: Option<KernelVersion>,
    pub shasum: String,
}

impl KernelBzImage {
    /// An image at `path`, of the version that `version` denotes, with
    /// digest `shasum`.
    pub fn from_path_and_version(path: &str, version: &str, shasum: String) -> (r: KernelBzImage)
        ensures
            r.path@ == path@,
            r.version == kernel_version_spec(version@),
            r.shasum == shasum,
    {
        KernelBzImage { path: path.to_owned(), version: KernelVersion::parse_from_str(version), shasum }
    }

    /// An image at `path`, of the version its file name gives, with digest
    /// `shasum`.
    pub fn from_path(path: &str, shasum: String) -> (r: KernelBzImage)
        ensures
            r.path@ == path@,
            r.version == match file_name_of(path@) {
                Some(f) => file_name_version(f),
                None => None,
            },
            r.shasum == shasum,
    {
        KernelBzImage { path: path.to_owned(), version: KernelVersion::parse_from_path(path), shasum }
    }

    /// A copy of the image.
    pub fn duplicate(&self) -> (r: KernelBzImage)
        ensures
            r == *self,
    {
        KernelBzImage { path: self.path.clone(), version: self.version, shasum: self.shasum.clone() }
    }
}

/// A boot-loader entry.
pub struct BootEntry {
    /// The file name with index, boot count and suffix removed.
    pub name: String,
    pub index: Option<u32>,
    /// Present while the entry has not yet booted well.
    pub boot_count: Option<String>,
    pub title: String,
    pub bzimage: Option<KernelBzImage>,
    pub options: String,
}

impl BootEntry {
    /// Splits a boot entry file name `name.index+count.conf` into its
    /// name, index and boot count: `boot.2+3.conf` gives `boot`, 2 and `3`.
    pub fn parse_filename(filename: &str) -> (r: (String, Option<u32>, Option<String>))
        ensures
            (r.0@, r.1, match r.2 {
                Some(c) => Some(c@),
                None => None,
            }) == entry_filename_spec(filename@),
    {
        let n = filename.unicode_len();
        let mut end: usize = n;
        assert(filename@.take(n as int) =~= filename@);
        while end >= 5 && filename.get_char(end - 5) == '.' && filename.get_char(end - 4) == 'c'
            && filename.get_char(end - 3) == 'o' && filename.get_char(end - 2) == 'n'
            && filename.get_char(end - 1) == 'f'
            invariant
                n == filename@.len(),
                end <= n,
                trim_conf(filename@.take(end as int)) == trim_conf(filename@),
            decreases end,
        {
            let ghost t = filename@.take(end as int);
            assert(ends_with_conf(t));
            assert(t.take(t.len() - 5) =~= filename@.take(end - 5));
            end = end - 5;
        }
        let ghost t = filename@.take(end as int);
        assert(!ends_with_conf(t));
        assert(trim_conf(t) == t);
        let trimmed = substring(filename, 0, end);
        assert(trimmed@ =~= t);
        let (name, count) = match find_first(trimmed.as_str(), '+') {
            Some(i) => {
                let m = trimmed.unicode_len();
                (substring(trimmed.as_str(), 0, i), Some(substring(trimmed.as_str(), i + 1, m)))
            },
            None => (trimmed.clone(), None),
        };
        assert(name@ =~= (match first_index(t, '+') {
            Some(i) => t.take(i),
            None => t,
        }));
        assert(match count {
            Some(c) => Some(c@),
            None => None,
        } =~= (match first_index(t, '+') {
            Some(i) => Some(t.skip(i + 1)),
            None => None,
        }));
        match find_last(name.as_str(), '.') {
            Some(j) => {
                let m = name.unicode_len();
                let tail = substring(name.as_str(), j + 1, m);
                assert(tail@ =~= name@.skip(j + 1));
                match parse_u32(tail.as_str()) {
                    Some(idx) => {
                        let base = substring(name.as_str(), 0, j);
                        assert(base@ =~= name@.take(j as int));
                        (base, Some(idx), count)
                    },
                    None => (name, None, count),
                }
            },
            None => (name, None, count),
        }
    }

    /// Reads the text of a boot entry file: `title `, `linux /` and
    /// `options ` lines.
    pub fn parse_contents(text: &str) -> (r: Result<EntryContents, EntryError>)
        ensures
            match r {
                Ok(c) => entry_contents_spec(text@) == Ok::<(Seq<char>, Seq<Seq<char>>, Seq<char>), EntryError>(
                    (c.title@, string_views(c.kernels@), c.options@),
                ),
                Err(e) => entry_contents_spec(text@) == Err::<(Seq<char>, Seq<Seq<char>>, Seq<char>), EntryError>(e),
            },
    {
        let pieces = split(text, '\n');
        proof {
            lemma_split_nonempty(text@, '\n');
        }
        let ghost ps = string_views(pieces@);
        let n = pieces.len();
        let last_empty = pieces[n - 1].unicode_len() == 0;
        let count = if last_empty { n - 1 } else { n };
        let ghost lines = text_lines(text@);
        assert(lines.len() == count);
        let mut title = String::new();
        let mut kernels: Vec<String> = Vec::new();
        let mut options = String::new();
        let mut i: usize = 0;
        assert(lines.take(0) =~= Seq::<Seq<char>>::empty());
        assert(string_views(kernels@) =~= Seq::<Seq<char>>::empty());
        while i < count
            invariant
                ps == string_views(pieces@),
                ps == split_spec(text@, '\n'),
                n == ps.len(),
                count <= n,
                lines == text_lines(text@),
                lines.len() == count,
                i <= count,
                (title@, string_views(kernels@), options@) == entry_fields(lines.take(i as int)),
            decreases count - i,
        {
            let raw = pieces[i].as_str();
            let m = raw.unicode_len();
            let line = if i < n - 1 && m > 0 && raw.get_char(m - 1) == '\r' {
                substring(raw, 0, m - 1)
            } else {
                raw.to_owned()
            };
            assert(ps[i as int] == pieces@[i as int]@);
            assert(line@ =~= lines[i as int]);
            assert(lines.take(i + 1).drop_last() =~= lines.take(i as int));
            assert(lines.take(i + 1).last() == line@);
            proof {
                reveal_strlit("title ");
                reveal_strlit("linux /");
                reveal_strlit("options ");
            }
            let l = line.as_str();
            if starts_with(l, "title ") {
                title = substring(l, 6, m_len(l));
            } else if starts_with(l, "linux /") {
                let mut k = String::new();
                push_text(&mut k, "/boot/");
                let rest = substring(l, 7, m_len(l));
                push_text(&mut k, rest.as_str());
                let ghost before = string_views(kernels@);
                kernels.push(k);
                assert(string_views(kernels@) =~= before.push("/boot/"@ + l@.skip(7)));
            } else if starts_with(l, "options ") {
                options = substring(l, 8, m_len(l));
            }
            proof {
                assert(l@.skip(6) =~= l@.subrange(6, l@.len() as int));
                assert(l@.skip(7) =~= l@.subrange(7, l@.len() as int));
                assert(l@.skip(8) =~= l@.subrange(8, l@.len() as int));
            }
            i = i + 1;
        }
        assert(lines.take(count as int) =~= lines);
        if title.unicode_len() == 0 {
            return Err(EntryError::NoTitle);
        }
        if kernels.len() == 0 {
            return Err(EntryError::NoKernel);
        }
        if options.unicode_len() == 0 {
            return Err(EntryError::NoOptions);
        }
        Ok(EntryContents { title, kernels, options })
    }

    /// An entry parsed from its file name, with no title, image or options
    /// yet.
    pub fn from_filename(filename: &str) -> (r: BootEntry)
        ensures
            (r.name@, r.index, match r.boot_count {
                Some(c) => Some(c@),
                None => None,
            }) == entry_filename_spec(filename@),
            r.title@.len() == 0,
            r.bzimage is None,
            r.options@.len() == 0,
    {
        let (name, index, boot_count) = Self::parse_filename(filename);
        Self::new(name.as_str(), index, boot_count)
    }

    /// An entry with the given name, index and boot count, and no title,
    /// image or options yet.
    pub fn new(name: &str, index: Option<u32>, boot_count: Option<String>) -> (r: BootEntry)
        ensures
            r.name@ == name@,
            r.index == index,
            r.boot_count == boot_count,
            r.title@.len() == 0,
            r.bzimage is None,
            r.options@.len() == 0,
    {
        BootEntry {
            name: name.to_owned(),
            index,
            boot_count,
            title: String::new(),
            bzimage: None,
            options: String::new(),
        }
    }

    /// A new entry, with no index, for `kernel` booted with `options`.
    pub fn create_for_kernel(name: &str, kernel: KernelBzImage, options: &str, boot_count: Option<String>) -> (r: BootEntry)
        ensures
            r.name@ == name@,
            r.index is None,
            r.boot_count == boot_count,
            r.options@ == options@,
            r.title@ == title_text(kernel.version),
            r.bzimage == Some(kernel),
    {
        let mut entry = BootEntry::new(name, None, boot_count);
        entry.options = options.to_owned();
        entry.generate_title(&kernel);
        entry.bzimage = Some(kernel);
        entry
    }

    /// Whether the entry has booted well: it has no boot count.
    pub fn is_good(&self) -> (r: bool)
        ensures
            r == self.boot_count is None,
    {
        self.boot_count.is_none()
    }

    /// Sets the title from the kernel's version.
    pub fn generate_title(&mut self, kernel: &KernelBzImage)
        ensures
            final(self).title@ == title_text(kernel.version),
            final(self).name == old(self).name,
            final(self).index == old(self).index,
            final(self).boot_count == old(self).boot_count,
            final(self).bzimage == old(self).bzimage,
            final(self).options == old(self).options,
    {
        let mut s = String::new();
        match kernel.version {
            Some(v) => {
                push_text(&mut s, "Subgraph OS (Citadel ");
                let t = v.to_string();
                push_text(&mut s, t.as_str());
                push_text(&mut s, ")");
            },
            None => {
                push_text(&mut s, "Subgraph OS (Citadel)");
            },
        }
        assert(s@ =~= title_text(kernel.version));
        self.title = s;
    }

    /// The entry's file name.
    pub fn file_name(&self) -> (r: String)
        ensures
            r@ == entry_file_name(self.name@, self.index, match self.boot_count {
                Some(c) => Some(c@),
                None => None,
            }),
    {
        let mut s = self.name.clone();
        if let Some(i) = self.index {
            push_text(&mut s, ".");
            push_decimal(&mut s, i);
        }
        match &self.boot_count {
            Some(c) => {
                push_text(&mut s, "+");
                push_text(&mut s, c.as_str());
                push_text(&mut s, ".conf");
            },
            None => {
                push_text(&mut s, ".conf");
            },
        }
        assert(s@ =~= entry_file_name(self.name@, self.index, match self.boot_count {
            Some(c) => Some(c@),
            None => None,
        }));
        s
    }

    /// The path of the entry's file.
    pub fn path(&self) -> (r: String)
        ensures
            r@ == "/boot/loader/entries/"@ + entry_file_name(self.name@, self.index, match self.boot_count {
                Some(c) => Some(c@),
                None => None,
            }),
    {
        let mut s = String::new();
        push_text(&mut s, "/boot/loader/entries/");
        let f = self.file_name();
        push_text(&mut s, f.as_str());
        s
    }

    /// The index the entry takes when rotated: one more than its own, or 1
    /// where it has none. There is none past the largest index.
    pub fn rotated_index(&self) -> (r: Option<u32>)
        ensures
            r == match self.index {
                Some(i) => if i < u32::MAX { Some((i + 1) as u32) } else { None },
                None => Some(1u32),
            },
    {
        match self.index {
            Some(i) => if i < u32::MAX { Some(i + 1) } else { None },
            None => Some(1),
        }
    }

    /// The contents of the entry's file, for a kernel stored in `/boot`
    /// under the file name `kernel`.
    pub fn contents(&self, kernel: &str) -> (r: String)
        ensures
            r@ == "title "@ + self.title@ + "\nlinux /"@ + kernel@ + "\noptions "@ + self.options@ + "\n"@,
    {
        let mut s = String::new();
        push_text(&mut s, "title ");
        push_text(&mut s, self.title.as_str());
        push_text(&mut s, "\nlinux /");
        push_text(&mut s, kernel);
        push_text(&mut s, "\noptions ");
        push_text(&mut s, self.options.as_str());
        push_text(&mut s, "\n");
        assert(s@ =~= "title "@ + self.title@ + "\nlinux /"@ + kernel@ + "\noptions "@ + self.options@ + "\n"@);
        s
    }
}

/// Where an entry stands in its series: one without an index first, then
/// by index.
pub open spec fn series_key(e: BootEntry) -> nat {
    match e.index {
        Some(i) => i as nat + 1,
        None => 0,
    }
}

/// Whether the entry at `a` comes before the entry at `b` in a series:
/// by key, and by position among equal keys.
pub open spec fn series_before(es: Seq<BootEntry>, a: int, b: int) -> bool {
    series_key(es[a]) < series_key(es[b]) || (series_key(es[a]) == series_key(es[b]) && a < b)
}

/// Whether `v` lists, in series order, exactly the positions of the
/// entries named `name`.
pub open spec fn is_series(es: Seq<BootEntry>, name: Seq<char>, v: Seq<usize>) -> bool {
    &&& forall|k: int| 0 <= k < v.len() ==> #[trigger] v[k] < es.len() && es[v[k] as int].name@ == name
    &&& forall|p: int| 0 <= p < es.len() && #[trigger] es[p].name@ == name ==> v.contains(p as usize)
    &&& forall|i: int, j: int| 0 <= i < j < v.len() ==> series_before(es, #[trigger] v[i] as int, #[trigger] v[j] as int)
}

/// The kernel command line used where no entry gives one.
pub open spec fn default_cmdline() -> Seq<char> {
    "root=/dev/mapper/rootfs add_efi_memmap intel_iommu=off cryptomgr.notests rcupdate.rcu_expedited=1 rcu_nocbs=0-64 tsc=reliable no_timer_check noreplace-smp i915.fastboot=1 quiet splash"@
}

/// Why a kernel installation was refused.
#[derive(PartialEq, Eq, Structural, Clone, Copy, Debug)]
pub enum KernelError {
    /// An installed entry has a kernel with the same digest.
    AlreadyInstalled,
    /// The new kernel has no version.
    NoVersion,
}

/// The entries named `name`, as positions in `entries`, in series order.
pub fn find_by_name(entries: &Vec<BootEntry>, name: &str) -> (r: Vec<usize>)
    ensures
        is_series(entries@, name@, r@),
{
    let ghost es = entries@;
    let mut v: Vec<usize> = Vec::new();
    let mut p: usize = 0;
    while p < entries.len()
        invariant
            es == entries@,
            p <= es.len(),
            forall|k: int| 0 <= k < v@.len() ==> #[trigger] v@[k] < p && es[v@[k] as int].name@ == name@,
            forall|x: int| 0 <= x < p && #[trigger] es[x].name@ == name@ ==> v@.contains(x as usize),
            forall|i: int, j: int| 0 <= i < j < v@.len() ==> series_before(es, #[trigger] v@[i] as int, #[trigger] v@[j] as int),
        decreases es.len() - p,
    {
        if crate::text::str_eq(entries[p].name.as_str(), name) {
            insert_in_series(entries, &mut v, p, Ghost(name@));
        }
        p = p + 1;
    }
    v
}

/// Inserts the position `p`, which follows every position in `v`, into the
/// series `v` of the entries named `name`.
fn insert_in_series(entries: &Vec<BootEntry>, v: &mut Vec<usize>, p: usize, name: Ghost<Seq<char>>)
    requires
        p < entries@.len(),
        entries@[p as int].name@ == name@,
        forall|k: int| 0 <= k < old(v)@.len() ==> #[trigger] old(v)@[k] < p && entries@[old(v)@[k] as int].name@ == name@,
        forall|i: int, j: int| 0 <= i < j < old(v)@.len() ==> series_before(entries@, #[trigger] old(v)@[i] as int, #[trigger] old(v)@[j] as int),
    ensures
        forall|k: int| 0 <= k < final(v)@.len() ==> #[trigger] final(v)@[k] < p + 1 && entries@[final(v)@[k] as int].name@ == name@,
        forall|x: int| 0 <= x < p + 1 && #[trigger] entries@[x].name@ == name@ && old(v)@.contains(x as usize) ==> final(v)@.contains(x as usize),
        final(v)@.contains(p),
        forall|i: int, j: int| 0 <= i < j < final(v)@.len() ==> series_before(entries@, #[trigger] final(v)@[i] as int, #[trigger] final(v)@[j] as int),
{
    let ghost es = entries@;
    let kp = series_key_of(&entries[p]);
    let mut q: usize = 0;
    while q < v.len() && series_key_of(&entries[v[q]]) <= kp
        invariant
            es == entries@,
            p < es.len(),
            kp == series_key(es[p as int]),
            q <= v@.len(),
            v@ == old(v)@,
            forall|k: int| 0 <= k < v@.len() ==> #[trigger] v@[k] < p,
            forall|k: int| 0 <= k < q ==> series_key(es[#[trigger] v@[k] as int]) <= kp,
        decreases v@.len() - q,
    {
        q = q + 1;
    }
    let ghost old_v = v@;
    assert forall|k: int| q <= k < old_v.len() implies series_key(es[#[trigger] old_v[k] as int]) > kp by {
        if k > q {
            assert(series_before(es, old_v[q as int] as int, old_v[k] as int));
        }
    }
    v.insert(q, p);
    assert(v@ == old_v.insert(q as int, p));
    assert(v@[q as int] == p);
    assert forall|x: int| 0 <= x < p + 1 && #[trigger] es[x].name@ == name@ && old_v.contains(x as usize) implies v@.contains(x as usize) by {
        let k = choose|k: int| 0 <= k < old_v.len() && old_v[k] == x as usize;
        if k < q {
            assert(v@[k] == x as usize);
        } else {
            assert(v@[k + 1] == x as usize);
        }
    }
    assert forall|i: int, j: int| 0 <= i < j < v@.len() implies series_before(es, #[trigger] v@[i] as int, #[trigger] v@[j] as int) by {
        if j < q {
            assert(v@[i] == old_v[i] && v@[j] == old_v[j]);
        } else if j == q {
            assert(v@[i] == old_v[i]);
        } else if i < q {
            assert(v@[i] == old_v[i] && v@[j] == old_v[j - 1]);
        } else if i == q {
            assert(v@[j] == old_v[j - 1]);
        } else {
            assert(v@[i] == old_v[i - 1] && v@[j] == old_v[j - 1]);
        }
    }
    assert forall|k: int| 0 <= k < v@.len() implies #[trigger] v@[k] < p + 1 && es[v@[k] as int].name@ == name@ by {
        if k < q {
            assert(v@[k] == old_v[k]);
        } else if k > q {
            assert(v@[k] == old_v[k - 1]);
        }
    }
}

fn series_key_of(e: &BootEntry) -> (r: u64)
    ensures
        r == series_key(*e),
{
    match e.index {
        Some(i) => i as u64 + 1,
        None => 0,
    }
}

/// Whether the entry has a kernel whose digest is `digest`.
pub open spec fn has_digest(e: BootEntry, digest: Seq<char>) -> bool {
    e.bzimage matches Some(k) && k.shasum@ == digest
}

/// Installs a new kernel among the boot entries.
pub struct KernelInstaller {
    /// How many entries of the `boot` series to keep, the new one included.
    pub max_entries: usize,
    pub new_kernel: KernelBzImage,
    pub all_entries: Vec<BootEntry>,
    /// The `boot` series, as positions in `all_entries`, in series order.
    pub boot_entries: Vec<usize>,
}

impl KernelInstaller {
    /// An installer of `new_kernel` among the loaded `all_entries`, keeping
    /// three entries.
    pub fn new(new_kernel: KernelBzImage, all_entries: Vec<BootEntry>) -> (r: KernelInstaller)
        ensures
            r.max_entries == 3,
            r.new_kernel == new_kernel,
            r.all_entries == all_entries,
            is_series(all_entries@, "boot"@, r.boot_entries@),
    {
        let boot_entries = find_by_name(&all_entries, "boot");
        KernelInstaller { max_entries: 3, new_kernel, all_entries, boot_entries }
    }

    /// Whether some entry already has a kernel with the new kernel's digest.
    pub fn is_already_installed(&self) -> (r: bool)
        ensures
            r == self.is_installed_spec(),
    {
        let mut i: usize = 0;
        while i < self.all_entries.len()
            invariant
                i <= self.all_entries@.len(),
                forall|j: int| 0 <= j < i ==> !has_digest(#[trigger] self.all_entries@[j], self.new_kernel.shasum@),
            decreases self.all_entries@.len() - i,
        {
            if let Some(k) = &self.all_entries[i].bzimage {
                if crate::text::str_eq(k.shasum.as_str(), self.new_kernel.shasum.as_str()) {
                    assert(has_digest(self.all_entries@[i as int], self.new_kernel.shasum@));
                    return true;
                }
            }
            i = i + 1;
        }
        false
    }

    /// The kernel command line of the most recent `boot` entry, or the
    /// default one where there is none.
    pub fn generate_options_line(&self) -> (r: String)
        requires
            is_series(self.all_entries@, "boot"@, self.boot_entries@),
        ensures
            self.boot_entries@.len() > 0 ==> r@ == self.all_entries@[self.boot_entries@[0] as int].options@,
            self.boot_entries@.len() == 0 ==> r@ == default_cmdline(),
    {
        if self.boot_entries.len() > 0 {
            let first = self.boot_entries[0];
            self.all_entries[first].options.clone()
        } else {
            "root=/dev/mapper/rootfs add_efi_memmap intel_iommu=off cryptomgr.notests rcupdate.rcu_expedited=1 rcu_nocbs=0-64 tsc=reliable no_timer_check noreplace-smp i915.fastboot=1 quiet splash".to_owned()
        }
    }

    /// The paths the new kernel may be copied to, in order of preference:
    /// the first that does not exist is taken.
    pub fn install_kernel_path(&self) -> (r: Result<Vec<String>, KernelError>)
        ensures
            match self.new_kernel.version {
                None => r == Err::<Vec<String>, KernelError>(KernelError::NoVersion),
                Some(v) => r matches Ok(paths) && paths@.len() == 4 && paths@[0]@ == "/boot/bzImage-"@ + full_version_text(v)
                    && forall|i: int| 1 <= i < 4 ==> #[trigger] paths@[i]@ == "/boot/bzImage-"@ + full_version_text(v) + "-"@ + decimal(i as nat),
            },
    {
        let v = match self.new_kernel.version {
            Some(v) => v,
            None => return Err(KernelError::NoVersion),
        };
        let t = v.to_string();
        let mut paths: Vec<String> = Vec::new();
        let mut base = String::new();
        push_text(&mut base, "/boot/bzImage-");
        push_text(&mut base, t.as_str());
        paths.push(base.clone());
        let mut i: u32 = 1;
        while i < 4
            invariant
                1 <= i <= 4,
                base@ == "/boot/bzImage-"@ + full_version_text(v),
                paths@.len() == i,
                paths@[0]@ == base@,
                forall|k: int| 1 <= k < i ==> #[trigger] paths@[k]@ == base@ + "-"@ + decimal(k as nat),
            decreases 4 - i,
        {
            let mut p = base.clone();
            push_text(&mut p, "-");
            push_decimal(&mut p, i);
            paths.push(p);
            i = i + 1;
        }
        Ok(paths)
    }

    /// Whether the new kernel may be installed: refused where an entry
    /// already has a kernel with its digest.
    pub fn install_kernel(&self) -> (r: Result<(), KernelError>)
        ensures
            r is Err <==> self.is_installed_spec(),
            r is Err ==> r == Err::<(), KernelError>(KernelError::AlreadyInstalled),
    {
        if self.is_already_installed() {
            Err(KernelError::AlreadyInstalled)
        } else {
            Ok(())
        }
    }

    pub open spec fn is_installed_spec(&self) -> bool {
        exists|i: int| 0 <= i < self.all_entries@.len() && has_digest(#[trigger] self.all_entries@[i], self.new_kernel.shasum@)
    }

    /// Whether the `boot` series is rotated before the new entry is
    /// written: only where its first entry has no index and has booted well.
    pub fn needs_rotation(&self) -> (r: bool)
        requires
            is_series(self.all_entries@, "boot"@, self.boot_entries@),
        ensures
            r == (self.boot_entries@.len() > 0 && self.all_entries@[self.boot_entries@[0] as int].index is None
                && self.all_entries@[self.boot_entries@[0] as int].boot_count is None),
    {
        if self.boot_entries.len() > 0 {
            let e = &self.all_entries[self.boot_entries[0]];
            e.index.is_none() && e.is_good()
        } else {
            false
        }
    }

    /// The entries of the `boot` series to remove once the new entry is
    /// written, as positions in `all_entries`: the last ones, so that
    /// fewer than `max_entries` of the old series remain.
    pub fn entries_to_remove(&self) -> (r: Vec<usize>)
        requires
            self.max_entries > 0,
        ensures
            self.boot_entries@.len() < self.max_entries ==> r@.len() == 0,
            self.boot_entries@.len() >= self.max_entries ==> r@.len() == self.boot_entries@.len() - self.max_entries + 1,
            forall|k: int| 0 <= k < r@.len() ==> #[trigger] r@[k] == self.boot_entries@[self.boot_entries@.len() - 1 - k],
    {
        let mut r: Vec<usize> = Vec::new();
        let mut n: usize = self.boot_entries.len();
        while n >= self.max_entries && n > 0
            invariant
                n <= self.boot_entries@.len(),
                r@.len() == self.boot_entries@.len() - n,
                self.boot_entries@.len() < self.max_entries ==> n == self.boot_entries@.len(),
                self.max_entries > 0,
                self.boot_entries@.len() >= self.max_entries ==> n + 1 >= self.max_entries,
                forall|k: int| 0 <= k < r@.len() ==> #[trigger] r@[k] == self.boot_entries@[self.boot_entries@.len() - 1 - k],
            decreases n,
        {
            r.push(self.boot_entries[n - 1]);
            n = n - 1;
        }
        r
    }
}

fn m_len(s: &str) -> (r: usize)
    ensures
        r == s@.len(),
{
    s.unicode_len()
}

/// Whether a file in `/boot` is a kernel image: its name begins with
/// `bzImage-`.
pub fn is_kernel_file_name(name: &str) -> (r: bool)
    ensures
        r == has_prefix(name@, "bzImage-"@),
{
    starts_with(name, "bzImage-")
}

/// The versions (without revision) of the kernels in `/boot`, one per
/// kernel file name that holds a version, in order.
pub open spec fn boot_kernel_versions_spec(names: Seq<Seq<char>>) -> Seq<Seq<char>>
    decreases names.len(),
{
    if names.len() == 0 {
        Seq::empty()
    } else {
        let rest = boot_kernel_versions_spec(names.drop_last());
        let f = names.last();
        if has_prefix(f, "bzImage-"@) && file_name_version(f) is Some {
            rest.push(version_text(file_name_version(f).unwrap()))
        } else {
            rest
        }
    }
}

/// The versions of the kernels among the file names found in `/boot`.
pub fn all_boot_kernel_versions(names: &Vec<String>) -> (r: Vec<String>)
    ensures
        string_views(r@) == boot_kernel_versions_spec(string_views(names@)),
{
    let ghost ns = string_views(names@);
    let mut out: Vec<String> = Vec::new();
    let mut i: usize = 0;
    assert(ns.take(0) =~= Seq::<Seq<char>>::empty());
    assert(string_views(out@) =~= Seq::<Seq<char>>::empty());
    while i < names.len()
        invariant
            i <= names@.len(),
            ns == string_views(names@),
            string_views(out@) == boot_kernel_versions_spec(ns.take(i as int)),
        decreases names@.len() - i,
    {
        assert(ns.take(i + 1).drop_last() =~= ns.take(i as int));
        assert(ns.take(i + 1).last() == names@[i as int]@);
        let f = names[i].as_str();
        if is_kernel_file_name(f) {
            if let Some(kv) = KernelVersion::parse_from_file_name(f) {
                let ghost before = string_views(out@);
                out.push(kv.version());
                assert(string_views(out@) =~= before.push(version_text(kv)));
            }
        }
        i = i + 1;
    }
    assert(ns.take(i as int) =~= ns);
    out
}

proof fn lemma_split_nonempty(s: Seq<char>, c: char)
    ensures
        split_spec(s, c).len() >= 1,
{
}

} // verus!
