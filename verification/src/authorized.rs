//! The table of authorized initiators.
//!
//! A table is a text file beside the identity file. Each line holds the 64
//! hexadecimal digits of an initiator's public key and, behind white space, an
//! optional nick. Blank lines and lines that start with `#` are skipped.
use vstd::prelude::*;
use vstd::slice::slice_subrange;
use vstd::string::StringExecFns;
use vstd::utf8::encode_utf8;

use crate::bytes::{append_bytes, array_at, same_bytes};
use crate::hexcode::{
    hex_decode, hex_decoded, hex_digit, hex_encode, hex_encoded, hex_round_trip, hex_value,
    pairs_of_digits_decode,
};
use crate::text::{
    blank, blank_front_is_trimmed, chars_of, find_space, first_space, first_space_behind,
    first_space_in_range, is_space, is_whitespace,
    line_feeds_part_lines, lines_hold_no_line_feed, lines_join, lines_of, one_line, some_line, split_lines, string_of,
    texts_of, trim, trim_back, trim_back_behind_char, trim_back_is_front_part,
    trim_back_keeps_front, trim_front, trim_front_is_end_part, trimmed, trimming_commutes,
    trimming_is_idempotent,
};

verus! {

// --------------------------------------------------------------- file path

/// A path without the separators and `.` components at its end; the root keeps
/// its separator, and a path that is only `.` stays.
pub open spec fn path_core(path: Seq<u8>) -> Seq<u8>
    decreases path.len(),
{
    if path.len() > 1 && (path.last() == 47u8 || path.last() == 46u8 && path[path.len() - 2]
        == 47u8) {
        path_core(path.drop_last())
    } else {
        path
    }
}

/// Where the last component of a path starts.
pub open spec fn name_start(path: Seq<u8>) -> int
    decreases path.len(),
{
    if path.len() == 0 {
        0
    } else if path.last() == 47u8 {
        path.len() as int
    } else {
        name_start(path.drop_last())
    }
}

/// A path without its last component. The root and the empty path have none.
pub open spec fn path_parent(path: Seq<u8>) -> Option<Seq<u8>> {
    let core = path_core(path);
    if core.len() == 0 || core == seq![47u8] {
        None
    } else {
        Some(path_core(core.take(name_start(core))))
    }
}

/// A directory's path with the name of a file in it behind it.
pub open spec fn path_joined(dir: Seq<u8>, name: Seq<u8>) -> Seq<u8> {
    if dir.len() == 0 || dir.last() == 47u8 {
        dir + name
    } else {
        dir.push(47u8) + name
    }
}

/// The name of the table's file.
pub open spec fn table_name() -> Seq<u8> {
    encode_utf8("authorized"@)
}

fn core_len(path: &[u8]) -> (len: usize)
    ensures
        len <= path@.len(),
        path@.take(len as int) == path_core(path@),
{
    let mut len: usize = path.len();
    assert(path@.take(len as int) =~= path@);
    while len > 1 && (path[len - 1] == 47 || (path[len - 1] == 46 && path[len - 2] == 47))
        invariant
            len <= path@.len(),
            path_core(path@) == path_core(path@.take(len as int)),
        decreases len,
    {
        assert(path@.take(len as int).drop_last() =~= path@.take(len - 1));
        len = len - 1;
    }
    len
}

fn find_name(path: &[u8]) -> (start: usize)
    ensures
        start <= path@.len(),
        start == name_start(path@),
{
    let mut start: usize = path.len();
    assert(path@.take(start as int) =~= path@);
    while start > 0 && path[start - 1] != 47
        invariant
            start <= path@.len(),
            name_start(path@) == name_start(path@.take(start as int)),
        decreases start,
    {
        assert(path@.take(start as int).drop_last() =~= path@.take(start - 1));
        start = start - 1;
    }
    start
}

/// The path of the table's file beside an identity file.
pub open spec fn table_path(identity_path: Seq<u8>) -> Seq<u8> {
    match path_parent(identity_path) {
        Some(dir) => path_joined(dir, table_name()),
        None => table_name(),
    }
}

/// The path of the table's file: in the directory of the identity file. Paths
/// are bytes, with `/` between components.
pub fn authorized_path(identity_path: &[u8]) -> (path: Vec<u8>)
    ensures
        path@ == (match path_parent(identity_path@) {
            Some(dir) => path_joined(dir, table_name()),
            None => table_name(),
        }),
        path@ == table_path(identity_path@),
{
    let core = slice_subrange(identity_path, 0, core_len(identity_path));
    assert(core@ =~= path_core(identity_path@));
    let mut path: Vec<u8> = Vec::new();
    if core.len() > 0 && !(core.len() == 1 && core[0] == 47) {
        assert(core@ != seq![47u8]);
        let above = slice_subrange(core, 0, find_name(core));
        assert(above@ =~= core@.take(name_start(core@)));
        let dir = slice_subrange(above, 0, core_len(above));
        assert(dir@ =~= path_core(above@));
        append_bytes(&mut path, dir);
        if dir.len() > 0 && dir[dir.len() - 1] != 47 {
            path.push(47);
        }
    } else {
        assert(core@.len() == 1 ==> core@ =~= seq![47u8]);
    }
    append_bytes(&mut path, "authorized".as_bytes());
    assert(path_parent(identity_path@) is None ==> path@ =~= table_name());
    assert(path_parent(identity_path@) matches Some(dir) ==> path@ =~= path_joined(
        dir,
        table_name(),
    ));
    path
}

proof fn name_start_behind(dir: Seq<u8>, name: Seq<u8>)
    requires
        dir.len() == 0 || dir.last() == 47u8,
        !name.contains(47u8),
    ensures
        name_start(dir + name) == dir.len(),
    decreases name.len(),
{
    if name.len() == 0 {
        assert(dir + name =~= dir);
    } else {
        let front = name.drop_last();
        assert(name[name.len() - 1] != 47u8);
        assert forall|i: int| 0 <= i < front.len() implies front[i] != 47u8 by {
            assert(front[i] == name[i]);
        }
        assert((dir + name).drop_last() =~= dir + front);
        name_start_behind(dir, front);
    }
}

/// The table is in the directory of the identity file: what stands above a file
/// in a directory is that directory, without separators and `.` components at its
/// end.
pub proof fn table_is_beside_identity(dir: Seq<u8>, name: Seq<u8>)
    requires
        name.len() > 0,
        !name.contains(47u8),
        name != seq![46u8],
    ensures
        path_parent(path_joined(dir, name)) == Some(path_core(dir)),
{
    let path = path_joined(dir, name);
    let front = if dir.len() == 0 || dir.last() == 47u8 {
        dir
    } else {
        dir.push(47u8)
    };
    assert(path =~= front + name);
    assert(name[name.len() - 1] != 47u8);
    assert(name.last() == 46u8 && name.len() == 1 ==> name =~= seq![46u8]);
    assert(path.last() == name.last());
    assert(name.len() > 1 ==> path[path.len() - 2] == name[name.len() - 2] && name[name.len() - 2]
        != 47u8);
    assert(path_core(path) == path);
    name_start_behind(front, name);
    assert(path.take(front.len() as int) =~= front);
    assert(dir.push(47u8).drop_last() =~= dir);
    assert(path_core(front) == path_core(dir));
    assert(path != seq![47u8]) by {
        assert(path[path.len() - 1] != 47u8);
    }
}

// -------------------------------------------------------------------- table

/// One authorized initiator: its public key and an optional nick.
#[derive(Clone)]
pub struct Entry {
    pub x_pub: [u8; 32],
    pub nick: String,
}

/// What an entry holds.
#[verifier::ext_equal]
pub struct EntryView {
    pub x_pub: Seq<u8>,
    pub nick: Seq<char>,
}

impl View for Entry {
    type V = EntryView;

    open spec fn view(&self) -> EntryView {
        EntryView { x_pub: self.x_pub@, nick: self.nick@ }
    }
}

/// What the entries of a table hold.
pub open spec fn entry_views(entries: Seq<Entry>) -> Seq<EntryView> {
    entries.map_values(|entry: Entry| entry@)
}

/// What a vector of strings holds.
pub open spec fn string_views(strings: Seq<String>) -> Seq<Seq<char>> {
    strings.map_values(|string: String| string@)
}

/// What a line of a table is.
pub enum LineView {
    Skipped,
    Listed(EntryView),
    Malformed(Seq<char>),
}

/// Reads one line.
pub open spec fn line_view(line: Seq<char>) -> LineView {
    let inner = trimmed(line);
    if inner.len() == 0 || inner[0] == '#' {
        LineView::Skipped
    } else {
        let cut = first_space(inner);
        let nick = if cut < inner.len() {
            trimmed(inner.skip(cut + 1))
        } else {
            Seq::empty()
        };
        match hex_decoded(inner.take(cut)) {
            Some(key) => if key.len() == 32 {
                LineView::Listed(EntryView { x_pub: key, nick })
            } else {
                LineView::Malformed(inner)
            },
            None => LineView::Malformed(inner),
        }
    }
}

/// The entries that some lines list, in their order.
pub open spec fn entries_of(lines: Seq<Seq<char>>) -> Seq<EntryView>
    decreases lines.len(),
{
    if lines.len() == 0 {
        Seq::empty()
    } else {
        let before = entries_of(lines.drop_last());
        match line_view(lines.last()) {
            LineView::Listed(entry) => before.push(entry),
            _ => before,
        }
    }
}

/// The lines, without the white space around them, that list nothing though
/// they should.
pub open spec fn malformed_of(lines: Seq<Seq<char>>) -> Seq<Seq<char>>
    decreases lines.len(),
{
    if lines.len() == 0 {
        Seq::empty()
    } else {
        let before = malformed_of(lines.drop_last());
        match line_view(lines.last()) {
            LineView::Malformed(line) => before.push(line),
            _ => before,
        }
    }
}

/// A table as it was read, with the lines that could not be.
pub struct Table {
    pub entries: Vec<Entry>,
    pub malformed: Vec<String>,
}

/// What a table holds.
#[verifier::ext_equal]
pub struct TableView {
    pub entries: Seq<EntryView>,
    pub malformed: Seq<Seq<char>>,
}

impl View for Table {
    type V = TableView;

    open spec fn view(&self) -> TableView {
        TableView {
            entries: entry_views(self.entries@),
            malformed: string_views(self.malformed@),
        }
    }
}

impl TableView {
    /// Whether a table holds no line but blank ones and comments.
    pub open spec fn is_empty(self) -> bool {
        self.entries.len() == 0 && self.malformed.len() == 0
    }
}

impl Table {
    /// Whether the table holds nothing. A malformed line is something: it was
    /// meant for someone.
    pub fn is_empty(&self) -> (empty: bool)
        ensures
            empty == self@.is_empty(),
    {
        self.entries.len() == 0 && self.malformed.len() == 0
    }
}

/// The table in the text of a file.
pub open spec fn table_of(text: Seq<char>) -> TableView {
    TableView { entries: entries_of(lines_of(text)), malformed: malformed_of(lines_of(text)) }
}

/// The text of a file; of one that is not there, none.
pub open spec fn file_text(contents: Option<&str>) -> Seq<char> {
    match contents {
        Some(text) => text@,
        None => Seq::empty(),
    }
}

/// A line of a table as it was read.
pub enum Line {
    Skipped,
    Listed(Entry),
    Malformed(String),
}

impl View for Line {
    type V = LineView;

    open spec fn view(&self) -> LineView {
        match self {
            Line::Skipped => LineView::Skipped,
            Line::Listed(entry) => LineView::Listed(entry@),
            Line::Malformed(line) => LineView::Malformed(line@),
        }
    }
}

/// Reads one line of a table.
pub fn read_line(line: &[char]) -> (read: Line)
    ensures
        read@ == line_view(line@),
{
    let inner = trim(line);
    if inner.len() == 0 || inner[0] == '#' {
        return Line::Skipped;
    }
    let cut = find_space(inner);
    let digits = slice_subrange(inner, 0, cut);
    assert(digits@ =~= inner@.take(cut as int));
    let nick = if cut < inner.len() {
        let rest = slice_subrange(inner, cut + 1, inner.len());
        assert(rest@ =~= inner@.skip(cut + 1));
        string_of(trim(rest))
    } else {
        String::new()
    };
    let digits = string_of(digits);
    match hex_decode(digits.as_str()) {
        Some(key) => {
            if key.len() == 32 {
                let x_pub = array_at::<32>(&key, 0);
                assert(x_pub@ =~= key@);
                return Line::Listed(Entry { x_pub, nick });
            }
        },
        None => {},
    }
    Line::Malformed(string_of(inner))
}

/// Reads a table from the contents of its file. A file that is not there is an
/// empty table.
pub fn load(contents: Option<&str>) -> (table: Table)
    ensures
        table@ == table_of(file_text(contents)),
        contents is None ==> table@.is_empty(),
{
    let mut entries: Vec<Entry> = Vec::new();
    let mut malformed: Vec<String> = Vec::new();
    let text = match contents {
        Some(text) => text,
        None => {
            let table = Table { entries, malformed };
            proof {
                empty_file_is_empty();
                assert(table@ =~= table_of(Seq::empty()));
            }
            return table;
        },
    };
    let chars = chars_of(text);
    let lines = split_lines(&chars);
    let ghost all = lines_of(text@);
    let mut i: usize = 0;
    assert(entry_views(entries@) =~= entries_of(all.take(0)));
    assert(string_views(malformed@) =~= malformed_of(all.take(0)));
    while i < lines.len()
        invariant
            i <= lines@.len(),
            all == texts_of(lines@),
            entry_views(entries@) == entries_of(all.take(i as int)),
            string_views(malformed@) == malformed_of(all.take(i as int)),
        decreases lines@.len() - i,
    {
        let ghost entries_before = entries@;
        let ghost malformed_before = malformed@;
        assert(all.take(i + 1).drop_last() =~= all.take(i as int));
        match read_line(&lines[i]) {
            Line::Skipped => {},
            Line::Listed(entry) => {
                let ghost view = entry@;
                entries.push(entry);
                assert(entry_views(entries@) =~= entry_views(entries_before).push(view));
            },
            Line::Malformed(line) => {
                let ghost view = line@;
                malformed.push(line);
                assert(string_views(malformed@) =~= string_views(malformed_before).push(view));
            },
        }
        i = i + 1;
    }
    assert(all.take(all.len() as int) =~= all);
    Table { entries, malformed }
}

/// Whether a table lists a public key.
pub open spec fn listed(entries: Seq<EntryView>, x_pub: Seq<u8>) -> bool {
    exists|i: int| 0 <= i < entries.len() && #[trigger] entries[i].x_pub == x_pub
}

/// Whether `x_pub` is in the table.
pub fn contains(entries: &[Entry], x_pub: &[u8; 32]) -> (found: bool)
    ensures
        found == listed(entry_views(entries@), x_pub@),
{
    let mut i: usize = 0;
    while i < entries.len()
        invariant
            i <= entries@.len(),
            forall|j: int| 0 <= j < i ==> #[trigger] entry_views(entries@)[j].x_pub != x_pub@,
        decreases entries@.len() - i,
    {
        assert(entry_views(entries@)[i as int].x_pub == entries@[i as int].x_pub@);
        if same_bytes(&entries[i].x_pub, x_pub) {
            return true;
        }
        i = i + 1;
    }
    false
}

/// How a table writes an entry, without the line feed.
pub open spec fn entry_text(x_pub: Seq<u8>, nick: Seq<char>) -> Seq<char> {
    if nick.len() == 0 {
        hex_encoded(x_pub)
    } else {
        hex_encoded(x_pub).push(' ') + nick
    }
}

fn write_entry(x_pub: &[u8; 32], nick: &str) -> (line: String)
    ensures
        line@ == entry_text(x_pub@, nick@),
{
    let mut line = hex_encode(x_pub);
    if !nick.is_empty() {
        line.push(' ');
        line.append(nick);
    }
    line
}

/// Whether what is appended to a text starts a line: nothing but white space
/// stands behind its last line feed.
pub open spec fn starts_line(text: Seq<char>) -> bool {
    blank(lines_of(text).last())
}

fn is_at_line_start(text: &str) -> (at_start: bool)
    ensures
        at_start == starts_line(text@),
{
    let chars = chars_of(text);
    let lines = split_lines(&chars);
    proof {
        some_line(text@);
        assert(texts_of(lines@).len() == lines@.len());
        assert(texts_of(lines@).last() == lines@[lines@.len() - 1]@);
    }
    let last = &lines[lines.len() - 1];
    let mut i: usize = 0;
    while i < last.len()
        invariant
            i <= last@.len(),
            last@ == lines_of(text@).last(),
            forall|j: int| 0 <= j < i ==> is_space(#[trigger] last@[j]),
        decreases last@.len() - i,
    {
        if !is_whitespace(last[i]) {
            assert(!is_space(last@[i as int]));
            return false;
        }
        i = i + 1;
    }
    true
}

/// A nick as a table writes it: each line feed has become a space, so that the
/// nick stays on its line.
pub open spec fn line_nick(nick: Seq<char>) -> Seq<char> {
    nick.map_values(
        |c: char|
            if c == '\n' {
                ' '
            } else {
                c
            },
    )
}

fn one_line_nick(nick: &str) -> (line: String)
    ensures
        line@ == line_nick(nick@),
{
    let chars = chars_of(nick);
    let mut line = String::new();
    let mut i: usize = 0;
    assert(line@ =~= line_nick(nick@).take(0));
    while i < chars.len()
        invariant
            i <= chars@.len(),
            chars@ == nick@,
            line@ == line_nick(nick@).take(i as int),
        decreases chars@.len() - i,
    {
        let c = chars[i];
        line.push(
            if c == '\n' {
                ' '
            } else {
                c
            },
        );
        assert(line_nick(nick@).take(i + 1) =~= line_nick(nick@).take(i as int).push(
            line_nick(nick@)[i as int],
        ));
        i = i + 1;
    }
    assert(line_nick(nick@).take(nick@.len() as int) =~= line_nick(nick@));
    line
}

/// What lists an initiator when it is appended to a table: a line of its own. A
/// line that is still open there is ended first.
pub open spec fn appended_text(text: Seq<char>, x_pub: Seq<u8>, nick: Seq<char>) -> Seq<char> {
    (if starts_line(text) {
        Seq::empty()
    } else {
        seq!['\n']
    }) + entry_text(x_pub, line_nick(nick)).push('\n')
}

/// What to append to the file to list an initiator, or none when the file lists
/// it already.
pub fn add(contents: Option<&str>, x_pub: &[u8; 32], nick: &str) -> (line: Option<String>)
    ensures
        match line {
            Some(line) => !listed(table_of(file_text(contents)).entries, x_pub@) && line@
                == appended_text(file_text(contents), x_pub@, nick@),
            None => listed(table_of(file_text(contents)).entries, x_pub@),
        },
{
    let table = load(contents);
    if contains(&table.entries, x_pub) {
        return None;
    }
    let at_start = match contents {
        Some(text) => is_at_line_start(text),
        None => {
            proof {
                empty_file_is_empty();
            }
            true
        },
    };
    let nick_line = one_line_nick(nick);
    let entry = write_entry(x_pub, nick_line.as_str());
    let mut line = String::new();
    if !at_start {
        line.push('\n');
    }
    line.append(entry.as_str());
    line.push('\n');
    assert(line@ =~= appended_text(file_text(contents), x_pub@, nick@));
    Some(line)
}

/// The lines that show a table.
pub open spec fn printed(entries: Seq<EntryView>) -> Seq<Seq<char>> {
    entries.map_values(|entry: EntryView| entry_text(entry.x_pub, entry.nick))
}

/// The lines that show a table, one for each entry.
pub fn print_table(entries: &[Entry]) -> (lines: Vec<String>)
    ensures
        string_views(lines@) == printed(entry_views(entries@)),
        lines@.len() == entries@.len(),
        forall|i: int|
            0 <= i < lines@.len() ==> #[trigger] lines@[i]@ == entry_text(
                entries@[i].x_pub@,
                entries@[i].nick@,
            ),
{
    let mut lines: Vec<String> = Vec::new();
    let mut i: usize = 0;
    while i < entries.len()
        invariant
            i <= entries@.len(),
            lines@.len() == i,
            forall|j: int|
                0 <= j < i ==> #[trigger] lines@[j]@ == entry_text(
                    entries@[j].x_pub@,
                    entries@[j].nick@,
                ),
        decreases entries@.len() - i,
    {
        lines.push(write_entry(&entries[i].x_pub, entries[i].nick.as_str()));
        i = i + 1;
    }
    assert(string_views(lines@) =~= printed(entry_views(entries@)));
    lines
}

// --------------------------------------------------------------------- laws

proof fn empty_file_is_empty()
    ensures
        table_of(Seq::empty()).is_empty(),
        starts_line(Seq::empty()),
{
    let lines = lines_of(Seq::empty());
    assert(lines == seq![Seq::<char>::empty()]);
    blank_line_is_skipped(lines.last());
    assert(lines.drop_last() =~= Seq::<Seq<char>>::empty());
    assert(entries_of(lines.drop_last()).len() == 0);
    assert(malformed_of(lines.drop_last()).len() == 0);
}

/// Whether writing an entry and reading it again gives the entry: its key has
/// 32 bytes, and its nick neither white space around it nor a line feed in it.
pub open spec fn tidy(entry: EntryView) -> bool {
    &&& entry.x_pub.len() == 32
    &&& trimmed(entry.nick) == entry.nick
    &&& !entry.nick.contains('\n')
}

proof fn hex_text_is_tight(x_pub: Seq<u8>, i: int)
    requires
        0 <= i < 2 * x_pub.len(),
    ensures
        !is_space(hex_encoded(x_pub)[i]),
        hex_encoded(x_pub)[i] != '#',
        hex_encoded(x_pub)[i] != '\n',
{
    let value = if i % 2 == 0 {
        x_pub[i / 2] as int / 16
    } else {
        x_pub[i / 2] as int % 16
    };
    assert(0 <= value < 16);
    assert(hex_encoded(x_pub)[i] == hex_digit(value));
}

proof fn key_line_is_read(x_pub: Seq<u8>, gap: Seq<char>, nick: Seq<char>)
    requires
        x_pub.len() == 32,
        gap == seq![' '] || gap.len() == 0 && nick.len() == 0,
    ensures
        line_view(hex_encoded(x_pub) + gap + nick) == LineView::Listed(
            EntryView { x_pub, nick: trimmed(nick) },
        ),
{
    let digits = hex_encoded(x_pub);
    let end = gap + nick;
    let line = digits + gap + nick;
    assert(line =~= digits + end);
    assert forall|i: int| 0 <= i < digits.len() implies !is_space(#[trigger] digits[i]) by {
        hex_text_is_tight(x_pub, i);
    }
    hex_text_is_tight(x_pub, 0);
    hex_text_is_tight(x_pub, digits.len() - 1);
    assert(trim_front(line) == line);
    trim_back_keeps_front(digits, end);
    let inner = digits + trim_back(end);
    assert(trimmed(line) == inner);
    if gap.len() > 0 {
        trim_back_behind_char(' ', nick);
    }
    trimming_is_idempotent(nick);
    trimming_commutes(nick);
    assert(trim_back(end).len() > 0 ==> trim_back(end)[0] == ' ');
    first_space_behind(digits, trim_back(end));
    assert(inner.take(digits.len() as int) =~= digits);
    hex_round_trip(x_pub);
    if trim_back(end).len() > 0 {
        assert(inner.skip(digits.len() as int + 1) =~= trim_back(nick));
    } else {
        assert(trim_back(nick).len() == 0);
        assert(trimmed(nick) =~= Seq::<char>::empty());
    }
}

/// Reading the line of an entry gives its key, and its nick without the white
/// space around it.
pub proof fn entry_line_round_trip(x_pub: Seq<u8>, nick: Seq<char>)
    requires
        x_pub.len() == 32,
    ensures
        line_view(entry_text(x_pub, nick)) == LineView::Listed(
            EntryView { x_pub, nick: trimmed(nick) },
        ),
{
    let digits = hex_encoded(x_pub);
    if nick.len() == 0 {
        key_line_is_read(x_pub, Seq::empty(), nick);
        assert(digits + Seq::<char>::empty() + nick =~= digits);
    } else {
        key_line_is_read(x_pub, seq![' '], nick);
        assert(digits + seq![' '] + nick =~= digits.push(' ') + nick);
    }
}

/// A blank line, or one that starts with `#` behind any white space, is skipped.
pub proof fn comments_are_skipped(line: Seq<char>)
    ensures
        trimmed(line).len() == 0 || trimmed(line)[0] == '#' ==> line_view(line)
            == LineView::Skipped,
{
}

/// A file of blank lines and comments is an empty table.
pub proof fn commented_file_is_empty(text: Seq<char>)
    requires
        forall|i: int|
            0 <= i < lines_of(text).len() ==> trimmed(#[trigger] lines_of(text)[i]).len() == 0
                || trimmed(lines_of(text)[i])[0] == '#',
    ensures
        table_of(text).is_empty(),
{
    skipped_lines_hold_nothing(lines_of(text));
}

proof fn skipped_lines_hold_nothing(lines: Seq<Seq<char>>)
    requires
        forall|i: int|
            0 <= i < lines.len() ==> trimmed(#[trigger] lines[i]).len() == 0 || trimmed(
                lines[i],
            )[0] == '#',
    ensures
        entries_of(lines).len() == 0,
        malformed_of(lines).len() == 0,
    decreases lines.len(),
{
    if lines.len() > 0 {
        let front = lines.drop_last();
        assert forall|i: int| 0 <= i < front.len() implies trimmed(#[trigger] front[i]).len() == 0
            || trimmed(front[i])[0] == '#' by {
            assert(front[i] == lines[i]);
        }
        skipped_lines_hold_nothing(front);
        assert(lines.last() == lines[lines.len() - 1]);
    }
}

proof fn blank_line_is_skipped(line: Seq<char>)
    requires
        blank(line),
    ensures
        line_view(line) == LineView::Skipped,
{
    let empty = Seq::<char>::empty();
    blank_front_is_trimmed(line, empty);
    assert(line + empty =~= line);
    assert(trimmed(empty) =~= empty);
}

/// Lines are read one by one, in their order: what some lines list and what they
/// hold that is malformed stands before what the lines behind them do.
pub proof fn lines_are_read_in_turn(lines: Seq<Seq<char>>, more: Seq<Seq<char>>)
    ensures
        entries_of(lines + more) == entries_of(lines) + entries_of(more),
        malformed_of(lines + more) == malformed_of(lines) + malformed_of(more),
    decreases more.len(),
{
    if more.len() == 0 {
        assert(lines + more =~= lines);
        assert(entries_of(lines) + entries_of(more) =~= entries_of(lines));
        assert(malformed_of(lines) + malformed_of(more) =~= malformed_of(lines));
    } else {
        let front = more.drop_last();
        lines_are_read_in_turn(lines, front);
        assert((lines + more).drop_last() =~= lines + front);
        assert((lines + more).last() == more.last());
        assert(entries_of(lines + more) =~= entries_of(lines) + entries_of(more));
        assert(malformed_of(lines + more) =~= malformed_of(lines) + malformed_of(more));
    }
}

proof fn text_behind_line_start_is_read(text: Seq<char>, more: Seq<char>)
    requires
        starts_line(text),
    ensures
        entries_of(lines_of(text + more)) == entries_of(lines_of(text)) + entries_of(
            lines_of(more),
        ),
        malformed_of(lines_of(text + more)) == malformed_of(lines_of(text)) + malformed_of(
            lines_of(more),
        ),
        starts_line(text + more) == starts_line(more),
{
    let before = lines_of(text);
    let behind = lines_of(more);
    some_line(text);
    some_line(more);
    lines_join(text, more);
    let last = before.last();
    let line = last + behind[0];
    let head = before.drop_last();
    let tail = behind.skip(1);
    blank_front_is_trimmed(last, behind[0]);
    assert(line_view(line) == line_view(behind[0]));
    blank_line_is_skipped(last);
    assert(head.push(line) + tail =~= head + (seq![line] + tail));
    assert(behind =~= seq![behind[0]] + tail);
    lines_are_read_in_turn(head, seq![line] + tail);
    lines_are_read_in_turn(seq![line], tail);
    lines_are_read_in_turn(seq![behind[0]], tail);
    assert(seq![line].drop_last() =~= seq![behind[0]].drop_last());
    assert(entries_of(seq![line]) == entries_of(seq![behind[0]]));
    assert(malformed_of(seq![line]) == malformed_of(seq![behind[0]]));
    assert(entries_of(before) == entries_of(head));
    assert(malformed_of(before) == malformed_of(head));
    let all = lines_of(text + more);
    if tail.len() == 0 {
        assert(all.last() == line);
        assert(behind.last() == behind[0]);
        assert forall|i: int| blank(line) && 0 <= i < behind[0].len() implies is_space(
            #[trigger] behind[0][i],
        ) by {
            assert(line[last.len() + i] == behind[0][i]);
        }
    } else {
        assert(all.last() == behind.last());
    }
}

proof fn ending_a_line_changes_nothing(text: Seq<char>)
    ensures
        table_of(text.push('\n')) == table_of(text),
        starts_line(text.push('\n')),
{
    let lines = lines_of(text);
    let empty = Seq::<char>::empty();
    assert(text.push('\n').drop_last() =~= text);
    assert(lines_of(text.push('\n')) == lines.push(empty));
    assert(lines.push(empty).drop_last() =~= lines);
    blank_line_is_skipped(empty);
}

proof fn line_nick_is_one_line(nick: Seq<char>)
    ensures
        !line_nick(nick).contains('\n'),
        !nick.contains('\n') ==> line_nick(nick) == nick,
{
    assert forall|i: int| 0 <= i < nick.len() implies line_nick(nick)[i] != '\n' by {}
    if !nick.contains('\n') {
        assert forall|i: int| 0 <= i < nick.len() implies nick[i] != '\n' by {}
        assert(line_nick(nick) =~= nick);
    }
}

proof fn entry_text_is_one_line(x_pub: Seq<u8>, nick: Seq<char>)
    requires
        x_pub.len() == 32,
        !nick.contains('\n'),
    ensures
        !entry_text(x_pub, nick).contains('\n'),
{
    let line = entry_text(x_pub, nick);
    assert forall|i: int| 0 <= i < line.len() implies line[i] != '\n' by {
        if i < 64 {
            hex_text_is_tight(x_pub, i);
            assert(line[i] == hex_encoded(x_pub)[i]);
        } else if i > 64 {
            assert(line[i] == nick[i - 65]);
        }
    }
}

/// Appending what `add` gives lists the initiator, with its nick on one line and
/// without the white space around it, behind the entries that were there, and
/// changes nothing else: whatever the file holds and whatever the nick is.
pub proof fn appended_line_lists(text: Seq<char>, x_pub: Seq<u8>, nick: Seq<char>)
    requires
        x_pub.len() == 32,
    ensures
        table_of(text + appended_text(text, x_pub, nick)) == (TableView {
            entries: table_of(text).entries.push(
                EntryView { x_pub, nick: trimmed(line_nick(nick)) },
            ),
            malformed: table_of(text).malformed,
        }),
        starts_line(text + appended_text(text, x_pub, nick)),
{
    let front = if starts_line(text) {
        text
    } else {
        text.push('\n')
    };
    let empty = Seq::<char>::empty();
    let none = Seq::<Seq<char>>::empty();
    let line = entry_text(x_pub, line_nick(nick));
    let entry = EntryView { x_pub, nick: trimmed(line_nick(nick)) };
    let lines = lines_of(line.push('\n'));
    ending_a_line_changes_nothing(text);
    assert(text + appended_text(text, x_pub, nick) =~= front + line.push('\n'));
    line_nick_is_one_line(nick);
    entry_text_is_one_line(x_pub, line_nick(nick));
    one_line(line);
    ending_a_line_changes_nothing(line);
    entry_line_round_trip(x_pub, line_nick(nick));
    assert(seq![line].drop_last() =~= none);
    assert(entries_of(none) =~= Seq::<EntryView>::empty());
    assert(malformed_of(none) =~= none);
    assert(entries_of(seq![line]) =~= seq![entry]);
    assert(malformed_of(seq![line]) =~= none);
    text_behind_line_start_is_read(front, line.push('\n'));
    let before = table_of(text);
    assert(before.entries + seq![entry] =~= before.entries.push(entry));
    assert(before.malformed + none =~= before.malformed);
}

/// Adding an initiator is adding it once: when what `add` gives is in the file,
/// the file lists the key, so that a second `add` gives nothing. Another key is
/// listed then if and only if it was before.
pub proof fn adding_twice_adds_once(text: Seq<char>, x_pub: Seq<u8>, nick: Seq<char>)
    requires
        x_pub.len() == 32,
    ensures
        listed(table_of(text + appended_text(text, x_pub, nick)).entries, x_pub),
        forall|other: Seq<u8>| #[trigger]
            listed(table_of(text + appended_text(text, x_pub, nick)).entries, other) <==> (other
                == x_pub || listed(table_of(text).entries, other)),
{
    appended_line_lists(text, x_pub, nick);
    let before = table_of(text).entries;
    let after = before.push(EntryView { x_pub, nick: trimmed(line_nick(nick)) });
    assert(after[before.len() as int].x_pub == x_pub);
    assert forall|other: Seq<u8>| #[trigger] listed(after, other) <==> (other == x_pub || listed(
        before,
        other,
    )) by {
        if listed(after, other) {
            let i = choose|i: int| 0 <= i < after.len() && #[trigger] after[i].x_pub == other;
            if i < before.len() {
                assert(before[i].x_pub == other);
            }
        }
        if listed(before, other) {
            let i = choose|i: int| 0 <= i < before.len() && #[trigger] before[i].x_pub == other;
            assert(after[i].x_pub == other);
        }
    }
}

/// The text of some lines, each with a line feed behind it.
pub open spec fn joined_lines(lines: Seq<Seq<char>>) -> Seq<char>
    decreases lines.len(),
{
    if lines.len() == 0 {
        Seq::empty()
    } else {
        joined_lines(lines.drop_last()) + lines.last().push('\n')
    }
}

/// Reading the lines that show a table of tidy entries gives the table back.
pub proof fn table_round_trip(entries: Seq<EntryView>)
    requires
        forall|i: int| 0 <= i < entries.len() ==> tidy(#[trigger] entries[i]),
    ensures
        table_of(joined_lines(printed(entries))) == (TableView { entries, malformed: Seq::empty() }),
        starts_line(joined_lines(printed(entries))),
    decreases entries.len(),
{
    if entries.len() == 0 {
        empty_file_is_empty();
        assert(table_of(Seq::empty()).entries =~= entries);
        assert(table_of(Seq::empty()).malformed =~= Seq::<Seq<char>>::empty());
    } else {
        let front = entries.drop_last();
        let last = entries.last();
        assert(tidy(entries[entries.len() - 1]));
        assert forall|i: int| 0 <= i < front.len() implies tidy(#[trigger] front[i]) by {
            assert(front[i] == entries[i]);
        }
        table_round_trip(front);
        assert(printed(entries).drop_last() =~= printed(front));
        let text = joined_lines(printed(front));
        line_nick_is_one_line(last.nick);
        assert(appended_text(text, last.x_pub, last.nick) =~= entry_text(
            last.x_pub,
            last.nick,
        ).push('\n'));
        appended_line_lists(text, last.x_pub, last.nick);
        assert(front.push(last) =~= entries);
    }
}

/// The entries that were read from a table are tidy, so that showing a table
/// that was read and reading it again gives the same entries.
pub proof fn loaded_entries_are_tidy(text: Seq<char>)
    ensures
        forall|i: int|
            0 <= i < table_of(text).entries.len() ==> tidy(#[trigger] table_of(text).entries[i]),
        table_of(joined_lines(printed(table_of(text).entries))).entries == table_of(text).entries,
{
    let lines = lines_of(text);
    assert forall|i: int| 0 <= i < lines.len() implies !(#[trigger] lines[i]).contains('\n') by {
        lines_hold_no_line_feed(text, i);
    }
    line_entries_are_tidy(lines);
    table_round_trip(entries_of(lines));
}

proof fn line_entries_are_tidy(lines: Seq<Seq<char>>)
    requires
        forall|i: int| 0 <= i < lines.len() ==> !(#[trigger] lines[i]).contains('\n'),
    ensures
        forall|i: int|
            0 <= i < entries_of(lines).len() ==> tidy(#[trigger] entries_of(lines)[i]),
    decreases lines.len(),
{
    if lines.len() > 0 {
        let front = lines.drop_last();
        assert forall|i: int| 0 <= i < front.len() implies !(#[trigger] front[i]).contains(
            '\n',
        ) by {
            assert(front[i] == lines[i]);
        }
        line_entries_are_tidy(front);
        let line = lines.last();
        assert(line == lines[lines.len() - 1]);
        match line_view(line) {
            LineView::Listed(entry) => {
                line_entry_is_tidy(line);
                let all = entries_of(lines);
                assert forall|i: int| 0 <= i < all.len() implies tidy(#[trigger] all[i]) by {
                    if i < entries_of(front).len() {
                        assert(all[i] == entries_of(front)[i]);
                    }
                }
            },
            _ => {},
        }
    }
}

proof fn trimmed_is_part(text: Seq<char>, c: char)
    requires
        !text.contains(c),
    ensures
        !trimmed(text).contains(c),
{
    trim_front_is_end_part(text);
    let front = trim_front(text);
    trim_back_is_front_part(front);
    assert forall|i: int| 0 <= i < trimmed(text).len() implies trimmed(text)[i] != c by {
        assert(trimmed(text)[i] == front[i]);
        assert(front[i] == text[i + text.len() - front.len()]);
    }
}

proof fn line_entry_is_tidy(line: Seq<char>)
    requires
        !line.contains('\n'),
    ensures
        line_view(line) matches LineView::Listed(entry) ==> tidy(entry),
{
    let inner = trimmed(line);
    trimmed_is_part(line, '\n');
    let cut = first_space(inner);
    first_space_in_range(inner);
    if cut < inner.len() {
        let rest = inner.skip(cut + 1);
        assert forall|i: int| 0 <= i < rest.len() implies rest[i] != '\n' by {
            assert(rest[i] == inner[i + cut + 1]);
        }
        trimmed_is_part(rest, '\n');
        trimming_is_idempotent(rest);
    }
    assert(trimmed(Seq::<char>::empty()) =~= Seq::<char>::empty());
}

/// Beside `dir/name` the table is `dir/authorized`, beside `/name` it is
/// `/authorized`, and beside a bare name it is `authorized`.
pub proof fn table_replaces_the_name(dir: Seq<u8>, name: Seq<u8>)
    requires
        name.len() > 0,
        !name.contains(47u8),
        name != seq![46u8],
    ensures
        dir.len() > 0 && dir.last() != 47u8 && !(dir.len() > 1 && dir.last() == 46u8
            && dir[dir.len() - 2] == 47u8) ==> table_path(dir.push(47u8) + name) == dir.push(47u8)
            + encode_utf8("authorized"@),
        table_path(seq![47u8] + name) == seq![47u8] + encode_utf8("authorized"@),
        table_path(name) == encode_utf8("authorized"@),
{
    let root = seq![47u8];
    let none = Seq::<u8>::empty();
    table_is_beside_identity(dir, name);
    table_is_beside_identity(root, name);
    table_is_beside_identity(none, name);
    assert(path_joined(none, name) =~= name);
    assert(path_joined(none, table_name()) =~= table_name());
    assert(path_core(root) == root);
    assert(path_core(none) == none);
}

/// Separators and `.` components at the end of the identity file's path, and
/// doubled ones before its name, do not matter.
pub proof fn idle_components_do_not_matter(path: Seq<u8>, name: Seq<u8>)
    requires
        name.len() > 0,
        !name.contains(47u8),
        name != seq![46u8],
    ensures
        path.len() > 0 ==> table_path(path.push(47u8)) == table_path(path),
        path.len() > 0 ==> table_path(path.push(47u8).push(46u8)) == table_path(path),
        table_path(path.push(47u8).push(47u8) + name) == table_path(path.push(47u8) + name),
        table_path(path.push(47u8).push(46u8).push(47u8) + name) == table_path(
            path.push(47u8) + name,
        ),
        table_path(seq![47u8]) == encode_utf8("authorized"@),
        table_path(Seq::empty()) == encode_utf8("authorized"@),
{
    reveal_with_fuel(path_core, 4);
    let slash = path.push(47u8);
    let twice = slash.push(47u8);
    let dot = slash.push(46u8);
    let closed = dot.push(47u8);
    assert(slash.drop_last() =~= path);
    assert(twice.drop_last() =~= slash);
    assert(dot.drop_last() =~= slash);
    assert(closed.drop_last() =~= dot);
    assert(dot[dot.len() - 2] == 47u8);
    assert(path_core(twice) == path_core(slash));
    assert(path_core(closed) == path_core(dot));
    assert(path_core(dot) == path_core(slash));
    table_is_beside_identity(slash, name);
    table_is_beside_identity(twice, name);
    table_is_beside_identity(closed, name);
    assert(path_core(seq![47u8]) == seq![47u8]);
}

/// A line that is not blank, and no comment, lists a key exactly when, white space
/// around it aside, it starts with 64 hexadecimal digits that end there or at white
/// space; the nick is what follows, without the white space around it. Any other
/// such line is malformed, and is reported whole.
pub proof fn lines_list_keys_of_64_digits(line: Seq<char>)
    ensures
        ({
            let inner = trimmed(line);
            let skipped = inner.len() == 0 || inner[0] == '#';
            let lists = inner.len() >= 64 && hex_decoded(inner.take(64)) is Some && (inner.len()
                == 64 || is_space(inner[64]));
            &&& line_view(line) is Skipped <==> skipped
            &&& line_view(line) is Listed <==> lists
            &&& line_view(line) matches LineView::Listed(entry) ==> {
                &&& hex_decoded(inner.take(64)) == Some(entry.x_pub)
                &&& entry.x_pub.len() == 32
                &&& inner.len() == 64 ==> entry.nick.len() == 0
                &&& inner.len() > 64 ==> entry.nick == trimmed(inner.skip(65))
            }
            &&& !skipped && !lists ==> line_view(line) == LineView::Malformed(inner)
        }),
{
    let inner = trimmed(line);
    let cut = first_space(inner);
    first_space_in_range(inner);
    pairs_of_digits_decode(inner.take(cut));
    if inner.len() >= 64 {
        let digits = inner.take(64);
        pairs_of_digits_decode(digits);
        if hex_decoded(digits) is Some && (inner.len() == 64 || is_space(inner[64])) {
            assert forall|i: int| 0 <= i < 64 implies !is_space(#[trigger] digits[i]) by {
                assert(hex_value(digits[i]) is Some);
            }
            assert(hex_value(digits[0]) is Some);
            assert(digits[0] == inner[0]);
            first_space_behind(digits, inner.skip(64));
            assert(digits + inner.skip(64) =~= inner);
        }
    }
}

/// A line that lists an entry adds it, one that is malformed is reported, and one
/// that is skipped adds nothing; no lines hold nothing.
pub proof fn each_line_is_read_on_its_own(line: Seq<char>)
    ensures
        entries_of(seq![line]) == match line_view(line) {
            LineView::Listed(entry) => seq![entry],
            _ => Seq::empty(),
        },
        malformed_of(seq![line]) == match line_view(line) {
            LineView::Malformed(inner) => seq![inner],
            _ => Seq::empty(),
        },
        entries_of(Seq::empty()).len() == 0,
        malformed_of(Seq::empty()).len() == 0,
{
    let none = Seq::<Seq<char>>::empty();
    assert(seq![line].drop_last() =~= none);
    assert(entries_of(none) =~= Seq::<EntryView>::empty());
    assert(malformed_of(none) =~= none);
    assert(entries_of(seq![line]) =~= match line_view(line) {
        LineView::Listed(entry) => seq![entry],
        _ => Seq::empty(),
    });
    assert(malformed_of(seq![line]) =~= match line_view(line) {
        LineView::Malformed(inner) => seq![inner],
        _ => Seq::empty(),
    });
}

/// The table in a text is that of its lines; the text of a missing file is empty.
/// A table is empty exactly when it has neither an entry nor a malformed line.
pub proof fn tables_are_their_lines(text: Seq<char>, contents: &str, table: TableView)
    ensures
        table_of(text).entries == entries_of(lines_of(text)),
        table_of(text).malformed == malformed_of(lines_of(text)),
        file_text(Some(contents)) == contents@,
        file_text(None).len() == 0,
        table.is_empty() <==> table.entries.len() == 0 && table.malformed.len() == 0,
{
}

/// What tables, entries and lines hold is what their fields hold.
pub proof fn tables_hold_their_fields(table: Table, entry: Entry, text: String)
    ensures
        entry@.x_pub == entry.x_pub@,
        entry@.nick == entry.nick@,
        table@.entries.len() == table.entries@.len(),
        forall|i: int|
            0 <= i < table.entries@.len() ==> #[trigger] table@.entries[i] == table.entries@[i]@,
        table@.malformed.len() == table.malformed@.len(),
        forall|i: int|
            0 <= i < table.malformed@.len() ==> #[trigger] table@.malformed[i]
                == table.malformed@[i]@,
        Line::Skipped@ == LineView::Skipped,
        Line::Listed(entry)@ == LineView::Listed(entry@),
        Line::Malformed(text)@ == LineView::Malformed(text@),
{
}

/// A key is listed exactly when an entry has it, wherever it stands.
pub proof fn listing_is_having_an_entry(
    before: Seq<EntryView>,
    entry: EntryView,
    after: Seq<EntryView>,
    x_pub: Seq<u8>,
)
    ensures
        listed(before.push(entry) + after, x_pub) <==> listed(before, x_pub) || entry.x_pub == x_pub
            || listed(after, x_pub),
        !listed(Seq::empty(), x_pub),
{
    let all = before.push(entry) + after;
    assert(all[before.len() as int] == entry);
    if listed(all, x_pub) {
        let i = choose|i: int| 0 <= i < all.len() && #[trigger] all[i].x_pub == x_pub;
        if i < before.len() {
            assert(before[i].x_pub == x_pub);
        } else if i > before.len() {
            assert(after[i - before.len() - 1].x_pub == x_pub);
        }
    }
    if listed(before, x_pub) {
        let i = choose|i: int| 0 <= i < before.len() && #[trigger] before[i].x_pub == x_pub;
        assert(all[i].x_pub == x_pub);
    }
    if listed(after, x_pub) {
        let i = choose|i: int| 0 <= i < after.len() && #[trigger] after[i].x_pub == x_pub;
        assert(all[before.len() + 1 + i].x_pub == x_pub);
    }
}

/// An entry is written as the digits of its key and, if it has a nick, a space and
/// the nick.
pub proof fn entries_are_digits_and_nick(x_pub: Seq<u8>, nick: Seq<char>)
    requires
        x_pub.len() == 32,
    ensures
        ({
            let line = entry_text(x_pub, nick);
            &&& line.take(64) == hex_encoded(x_pub)
            &&& nick.len() == 0 ==> line.len() == 64
            &&& nick.len() > 0 ==> line[64] == ' ' && line.skip(65) == nick
        }),
{
    let line = entry_text(x_pub, nick);
    assert(line.take(64) =~= hex_encoded(x_pub));
    if nick.len() > 0 {
        assert(line.skip(65) =~= nick);
    }
}

/// In a nick as a table writes it each line feed is a space, and nothing else has
/// changed.
pub proof fn nicks_change_in_line_feeds_only(nick: Seq<char>)
    ensures
        line_nick(nick).len() == nick.len(),
        forall|i: int|
            #![trigger line_nick(nick)[i]]
            0 <= i < nick.len() ==> (nick[i] == '\n' ==> line_nick(nick)[i] == ' ') && (nick[i]
                != '\n' ==> line_nick(nick)[i] == nick[i]),
{
}

/// A text is at the start of a line exactly when nothing but white space stands
/// behind its last line feed, or in it if it has none.
pub proof fn lines_start_behind_line_feeds(text: Seq<char>, end: Seq<char>)
    requires
        !end.contains('\n'),
    ensures
        starts_line(text.push('\n') + end) <==> forall|i: int|
            0 <= i < end.len() ==> is_space(#[trigger] end[i]),
        starts_line(end) <==> forall|i: int| 0 <= i < end.len() ==> is_space(#[trigger] end[i]),
{
    line_feeds_part_lines(text, end);
}

/// What is appended ends in a line feed and holds one line, the entry's; a line
/// feed stands before it exactly where a line is open.
pub proof fn what_is_appended_is_one_line(text: Seq<char>, x_pub: Seq<u8>, nick: Seq<char>)
    ensures
        ({
            let line = entry_text(x_pub, line_nick(nick)).push('\n');
            &&& starts_line(text) ==> appended_text(text, x_pub, nick) == line
            &&& !starts_line(text) ==> appended_text(text, x_pub, nick) == seq!['\n'] + line
        }),
{
    assert(Seq::<char>::empty() + entry_text(x_pub, line_nick(nick)).push('\n') =~= entry_text(
        x_pub,
        line_nick(nick),
    ).push('\n'));
}

/// A table is shown in as many lines as it has entries, each with the text of its
/// entry.
pub proof fn entries_are_shown_in_turn(entries: Seq<EntryView>)
    ensures
        printed(entries).len() == entries.len(),
        forall|i: int|
            0 <= i < entries.len() ==> #[trigger] printed(entries)[i] == entry_text(
                entries[i].x_pub,
                entries[i].nick,
            ),
{
}

} // verus!
