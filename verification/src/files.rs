//! The source files that diagnostics point into, each read once.
//!
//! The cache reads nothing itself. Its owner reads a file when the cache does
//! not know it yet and hands the bytes, or the failure, to
//! [`FileCache::store`]; from then on the cache answers for that name and
//! takes no other contents for it.

use vstd::prelude::*;
use vstd::utf8::*;
use crate::charpeek::{lemma_line_len, line_len, NEWLINE};
use crate::text::decode_text;

verus! {

/// The carriage return byte.
pub const CARRIAGE_RETURN: u8 = 13;

/// The text of the row that follows the last row of a file.
pub open spec fn end_marker() -> Seq<char> {
    "<END OF FILE>"@
}

/// The bytes of a line without the line feed, or the carriage return and
/// line feed, at their end.
pub open spec fn bare(raw: Seq<u8>) -> Seq<u8> {
    let n = raw.len() as int;
    if n >= 2 && raw[n - 1] == NEWLINE && raw[n - 2] == CARRIAGE_RETURN {
        raw.take(n - 2)
    } else if n >= 1 && raw[n - 1] == NEWLINE {
        raw.take(n - 1)
    } else {
        raw
    }
}

/// The row that the bytes of one line stand for. A line that is not UTF-8
/// stands for an empty row.
pub open spec fn row_text(raw: Seq<u8>) -> Seq<char> {
    if valid_utf8(bare(raw)) {
        decode_utf8(bare(raw))
    } else {
        Seq::empty()
    }
}

/// The rows of a file with these contents: one for each line, a last line
/// without a line feed included.
pub open spec fn rows_of(content: Seq<u8>) -> Seq<Seq<char>>
    decreases content.len(),
{
    if content.len() == 0 {
        Seq::empty()
    } else {
        let n = line_len(content) as int;
        if 0 < n <= content.len() {
            seq![row_text(content.take(n))] + rows_of(content.skip(n))
        } else {
            Seq::empty()
        }
    }
}

/// The contents that were handed in, as plain data.
pub open spec fn bytes_of(content: Option<&[u8]>) -> Option<Seq<u8>> {
    match content {
        Some(bytes) => Some(bytes@),
        None => None,
    }
}

/// What the cache keeps for a file: its rows followed by the end marker, or
/// nothing at all where the file could not be read.
pub open spec fn kept(content: Option<Seq<u8>>) -> Seq<Seq<char>> {
    match content {
        Some(bytes) => rows_of(bytes).push(end_marker()),
        None => Seq::empty(),
    }
}

/// The cache after `content` was handed in for `name`: the first contents
/// that were handed in for a name stay.
pub open spec fn stored(
    files: Map<Seq<char>, Seq<Seq<char>>>,
    name: Seq<char>,
    content: Option<Seq<u8>>,
) -> Map<Seq<char>, Seq<Seq<char>>> {
    if files.contains_key(name) {
        files
    } else {
        files.insert(name, kept(content))
    }
}

/// Splits the contents of a file into its rows.
pub fn split_rows(content: &[u8]) -> (rows: Vec<String>)
    ensures
        rows.deep_view() == rows_of(content@),
{
    let mut rows: Vec<String> = Vec::new();
    let mut at: usize = 0;
    assert(content@.skip(0) =~= content@);
    while at < content.len()
        invariant
            at <= content.len(),
            rows.deep_view() + rows_of(content@.skip(at as int)) == rows_of(content@),
        decreases content.len() - at,
    {
        let ghost tail = content@.skip(at as int);
        let mut end: usize = at;
        let mut raw: Vec<u8> = Vec::new();
        let mut found = false;
        while !found && end < content.len()
            invariant
                at <= end <= content.len(),
                raw@ == content@.subrange(at as int, end as int),
                found ==> end > at && content[end - 1] == NEWLINE,
                forall|i: int| at <= i < end - 1 ==> content[i] != NEWLINE,
                !found && end > at ==> content[end - 1] != NEWLINE,
            decreases content.len() - end, if found { 0int } else { 1int },
        {
            let b = content[end];
            raw.push(b);
            found = b == NEWLINE;
            end = end + 1;
            assert(raw@ =~= content@.subrange(at as int, end as int));
        }
        proof {
            assert forall|i: int| 0 <= i < end - at - 1 implies tail[i] != NEWLINE by {
                assert(tail[i] == content[at + i]);
            }
            if found {
                lemma_line_len(tail, end - at - 1);
            } else {
                lemma_line_len(tail, end - at);
            }
            assert(line_len(tail) == end - at);
            assert(raw@ =~= tail.take(end - at));
            assert(tail.skip(end - at) =~= content@.skip(end as int));
        }
        let ghost line = raw@;
        let mut n = raw.len();
        if n >= 2 && raw[n - 1] == NEWLINE && raw[n - 2] == CARRIAGE_RETURN {
            raw.truncate(n - 2);
        } else if n >= 1 && raw[n - 1] == NEWLINE {
            raw.truncate(n - 1);
        }
        assert(raw@ =~= bare(line));
        let row = match decode_text(raw) {
            Some(text) => text,
            None => String::new(),
        };
        assert(row@ == row_text(line));
        let ghost before = rows.deep_view();
        rows.push(row);
        proof {
            assert(rows.deep_view() =~= before.push(row_text(line)));
            assert(before + rows_of(tail) =~= rows.deep_view() + rows_of(
                content@.skip(end as int),
            ));
        }
        at = end;
    }
    assert(rows.deep_view() + rows_of(content@.skip(at as int)) =~= rows.deep_view());
    rows
}

/// A file that the cache knows, with its rows.
struct Entry {
    name: String,
    rows: Vec<String>,
}

/// The place of `name` among `names`, the first where it stands more than
/// once.
spec fn position(names: Seq<Seq<char>>, name: Seq<char>) -> Option<int>
    decreases names.len(),
{
    if names.len() == 0 {
        None
    } else {
        match position(names.drop_last(), name) {
            Some(i) => Some(i),
            None => if names.last() == name {
                Some(names.len() - 1)
            } else {
                None
            },
        }
    }
}

proof fn lemma_position(names: Seq<Seq<char>>, name: Seq<char>)
    ensures
        match position(names, name) {
            Some(i) => 0 <= i < names.len() && names[i] == name && forall|j: int|
                0 <= j < i ==> names[j] != name,
            None => forall|j: int| 0 <= j < names.len() ==> names[j] != name,
        },
    decreases names.len(),
{
    if names.len() > 0 {
        let front = names.drop_last();
        lemma_position(front, name);
        assert forall|j: int| 0 <= j < front.len() implies front[j] == names[j] by {}
    }
}

/// The rows of the files that were referred to, by file name.
pub struct FileCache {
    entries: Vec<Entry>,
}

impl FileCache {
    spec fn names(&self) -> Seq<Seq<char>> {
        Seq::new(self.entries.len() as nat, |i: int| self.entries[i].name@)
    }

    fn find(&self, name: &str) -> (at: Option<usize>)
        ensures
            match at {
                Some(i) => i < self.entries.len() && position(self.names(), name@) == Some(i as int),
                None => position(self.names(), name@) is None,
            },
    {
        let wanted = name.to_owned();
        let mut i: usize = 0;
        while i < self.entries.len()
            invariant
                i <= self.entries.len(),
                wanted@ == name@,
                forall|j: int| 0 <= j < i ==> self.names()[j] != name@,
            decreases self.entries.len() - i,
        {
            if self.entries[i].name == wanted {
                proof {
                    lemma_position(self.names(), name@);
                    assert(self.names()[i as int] == name@);
                }
                return Some(i);
            }
            i = i + 1;
        }
        proof {
            lemma_position(self.names(), name@);
        }
        None
    }

    /// A cache that knows no file.
    pub fn new() -> (cache: Self)
        ensures
            cache@ == Map::<Seq<char>, Seq<Seq<char>>>::empty(),
    {
        let cache = FileCache { entries: Vec::new() };
        assert(cache@ =~= Map::<Seq<char>, Seq<Seq<char>>>::empty());
        cache
    }

    /// Whether contents were handed in for `name`.
    pub fn contains(&self, name: &str) -> (b: bool)
        ensures
            b == self@.contains_key(name@),
    {
        self.find(name).is_some()
    }

    /// The rows kept for `name`.
    pub fn rows(&self, name: &str) -> (rows: Option<&Vec<String>>)
        ensures
            match rows {
                Some(r) => self@.contains_key(name@) && r.deep_view() == self@[name@],
                None => !self@.contains_key(name@),
            },
    {
        match self.find(name) {
            Some(i) => Some(&self.entries[i].rows),
            None => None,
        }
    }

    /// Takes the contents of the file `name`, or `None` where it could not
    /// be read. Only the first contents handed in for a name are kept:
    /// whatever comes for that name later changes nothing.
    pub fn store(&mut self, name: &str, content: Option<&[u8]>)
        ensures
            final(self)@ == stored(old(self)@, name@, bytes_of(content)),
    {
        if self.find(name).is_some() {
            return ;
        }
        let rows = match content {
            Some(bytes) => {
                let mut rows = split_rows(bytes);
                let ghost before = rows.deep_view();
                rows.push("<END OF FILE>".to_owned());
                assert(rows.deep_view() =~= before.push(end_marker()));
                rows
            },
            None => {
                let rows: Vec<String> = Vec::new();
                assert(rows.deep_view() =~= Seq::<Seq<char>>::empty());
                rows
            },
        };
        let ghost old_names = self.names();
        self.entries.push(Entry { name: name.to_owned(), rows });
        proof {
            let goal = stored(old(self)@, name@, bytes_of(content));
            assert(self.names().drop_last() =~= old_names);
            assert(self.names().last() == name@);
            assert(rows.deep_view() == kept(bytes_of(content)));
            assert forall|k: Seq<char>| self@.contains_key(k) == goal.contains_key(k) by {
                lemma_position(old_names, k);
            }
            assert forall|k: Seq<char>| self@.contains_key(k) implies self@[k] == goal[k] by {
                lemma_position(old_names, k);
                let i = position(self.names(), k)->0;
                if position(old_names, k) is Some {
                    assert(self.entries[i] == old(self).entries[i]);
                } else {
                    assert(i == old_names.len());
                }
            }
            assert(self@ =~= goal);
        }
    }
}

impl View for FileCache {
    type V = Map<Seq<char>, Seq<Seq<char>>>;

    closed spec fn view(&self) -> Map<Seq<char>, Seq<Seq<char>>> {
        Map::new(
            |k: Seq<char>| position(self.names(), k) is Some,
            |k: Seq<char>| self.entries[position(self.names(), k)->0].rows.deep_view(),
        )
    }
}

/// What was kept for a file stays, whatever is handed in for it later: a
/// second reading of the file, or its disappearance, changes nothing.
pub proof fn lemma_first_contents_stay(
    files: Map<Seq<char>, Seq<Seq<char>>>,
    name: Seq<char>,
    first: Option<Seq<u8>>,
    second: Option<Seq<u8>>,
)
    ensures
        stored(stored(files, name, first), name, second) == stored(files, name, first),
        stored(files, name, first).contains_key(name),
        !files.contains_key(name) ==> stored(files, name, first)[name] == kept(first),
{
}

/// Handing in contents for one file leaves what is kept for the others.
pub proof fn lemma_other_files_stay(
    files: Map<Seq<char>, Seq<Seq<char>>>,
    name: Seq<char>,
    content: Option<Seq<u8>>,
    other: Seq<char>,
)
    requires
        files.contains_key(other),
    ensures
        stored(files, name, content).contains_key(other),
        stored(files, name, content)[other] == files[other],
{
}

} // verus!
