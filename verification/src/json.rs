//! The document model: entries, blocks, and whole documents, with parsing
//! from source text and assembly into JSON text.

use vstd::prelude::*;
use vstd::string::*;
use vstd::slice::slice_subrange;
use crate::error::ConvertError;
use crate::text::{find_char_from, find_from, lemma_find_from, source_lines, source_lines_spec, trim_spec, trim_str};
use crate::utils::{entry_raw_json_spec, should_skip, should_skip_spec, split_entry, split_entry_spec, value_json};
use crate::valid::{json_check, json_ok, json_pretty, pretty_of};

verus! {

/// One `key = value` line, both parts trimmed.
pub struct Entry {
    pub key: String,
    pub value: String,
}

/// The mathematical view of an entry.
pub ghost struct EntryV {
    pub key: Seq<char>,
    pub value: Seq<char>,
}

impl View for Entry {
    type V = EntryV;

    open spec fn view(&self) -> EntryV {
        EntryV { key: self.key@, value: self.value@ }
    }
}

impl DeepView for Entry {
    type V = EntryV;

    open spec fn deep_view(&self) -> EntryV {
        self.view()
    }
}

/// One bracketed section: a verbatim name and its ordered entries.
pub struct Block {
    pub name: String,
    pub entries: Vec<Entry>,
}

/// The mathematical view of a block.
pub ghost struct BlockV {
    pub name: Seq<char>,
    pub entries: Seq<EntryV>,
}

impl View for Block {
    type V = BlockV;

    open spec fn view(&self) -> BlockV {
        BlockV { name: self.name@, entries: self.entries.deep_view() }
    }
}

impl DeepView for Block {
    type V = BlockV;

    open spec fn deep_view(&self) -> BlockV {
        self.view()
    }
}

/// A whole parsed document: the source path and its ordered blocks.
pub struct Json {
    path: String,
    blocks: Vec<Block>,
}

/// The mathematical view of a document.
pub ghost struct JsonV {
    pub path: Seq<char>,
    pub blocks: Seq<BlockV>,
}

impl View for Json {
    type V = JsonV;

    closed spec fn view(&self) -> JsonV {
        JsonV { path: self.path@, blocks: self.blocks.deep_view() }
    }
}

/// The entry a splittable line denotes.
pub open spec fn entry_of_line(l: Seq<char>) -> EntryV {
    EntryV { key: split_entry_spec(l).unwrap().0, value: split_entry_spec(l).unwrap().1 }
}

/// Whether every line splits at some `=`.
pub open spec fn all_entries_ok(lines: Seq<Seq<char>>) -> bool {
    forall|i: int| 0 <= i < lines.len() ==> split_entry_spec(lines[i]) is Some
}

/// The entries denoted by a block's body lines, in order.
pub open spec fn entries_of(lines: Seq<Seq<char>>) -> Seq<EntryV> {
    lines.map_values(|l: Seq<char>| entry_of_line(l))
}

impl Entry {
    /// Splits one body line at its first `=` into a trimmed key and value.
    pub fn new(line: &str) -> (r: Result<Entry, ConvertError>)
        ensures
            match split_entry_spec(line@) {
                Some(kv) => r matches Ok(e) && e@.key == kv.0 && e@.value == kv.1,
                None => r matches Err(er) && er == ConvertError::MalformedEntry,
            },
    {
        match split_entry(line) {
            None => Err(ConvertError::MalformedEntry),
            Some(kv) => Ok(Entry { key: kv.0, value: kv.1 }),
        }
    }

    /// The `"key": value` JSON fragment for this entry, with the raw value
    /// classified and converted.
    pub fn to_raw_json(&self) -> (r: Result<String, ConvertError>)
        ensures
            match entry_raw_json_spec(self@.key, self@.value) {
                Some(j) => r matches Ok(s) && s@ == j,
                None => r matches Err(e) && e == ConvertError::MalformedInlineObject,
            },
    {
        match value_json(self.value.as_str()) {
            Err(e) => Err(e),
            Ok(vj) => {
                let mut out = String::from_str("\"");
                out.append(self.key.as_str());
                out.append("\": ");
                out.append(vj.as_str());
                proof {
                    reveal_strlit("\"");
                    reveal_strlit("\": ");
                    assert(("\": ")@ =~= seq!['"', ':', ' ']);
                    assert(out@ =~= seq!['"'] + self@.key + seq!['"', ':', ' '] + vj@);
                }
                Ok(out)
            },
        }
    }
}

/// The joined `"key": value` fragments of a block's entries, or nothing when
/// some entry's value cannot be converted.
pub open spec fn entries_json_spec(entries: Seq<EntryV>) -> Option<Seq<char>>
    decreases entries.len(),
{
    if entries.len() == 0 {
        Some(Seq::empty())
    } else {
        match entry_raw_json_spec(entries[0].key, entries[0].value) {
            None => None,
            Some(j) => {
                if entries.len() == 1 {
                    Some(j)
                } else {
                    match entries_json_spec(entries.drop_first()) {
                        None => None,
                        Some(rest) => Some(j + seq![','] + rest),
                    }
                }
            },
        }
    }
}

proof fn lemma_entries_json_none(entries: Seq<EntryV>, k: int)
    requires
        0 <= k < entries.len(),
        entry_raw_json_spec(entries[k].key, entries[k].value) is None,
    ensures
        entries_json_spec(entries) is None,
    decreases entries.len(),
{
    if k > 0 {
        if entry_raw_json_spec(entries[0].key, entries[0].value) is Some {
            lemma_entries_json_none(entries.drop_first(), k - 1);
        }
    }
}

/// The `"name": { ... }` fragment a block denotes, after its assembled object
/// text passes the structural JSON check.
pub open spec fn block_to_json_spec(b: BlockV) -> Result<Seq<char>, ConvertError> {
    match entries_json_spec(b.entries) {
        None => Err(ConvertError::MalformedInlineObject),
        Some(body) => {
            let obj = seq!['{'] + body + seq!['}'];
            if json_ok(obj) {
                Ok(seq!['"'] + b.name + seq!['"', ':', ' '] + obj)
            } else {
                Err(ConvertError::StructuralValidationFailure)
            }
        },
    }
}

impl Block {
    /// Builds a block from its name and body lines; every body line must
    /// split at some `=`.
    pub fn new(name: &str, lines: &[String]) -> (r: Result<Block, ConvertError>)
        ensures
            ({
                if all_entries_ok(lines.deep_view()) {
                    r matches Ok(b) && b@.name == name@ && b@.entries == entries_of(
                        lines.deep_view(),
                    )
                } else {
                    r matches Err(e) && e == ConvertError::MalformedEntry
                }
            }),
    {
        let n = lines.len();
        let mut entries: Vec<Entry> = Vec::new();
        let mut i: usize = 0;
        while i < n
            invariant
                0 <= i <= n,
                n == lines@.len(),
                entries@.len() == i,
                forall|j: int| 0 <= j < i ==> split_entry_spec(lines.deep_view()[j]) is Some,
                forall|j: int| 0 <= j < i ==> (#[trigger] entries@[j])@ == entry_of_line(
                    lines.deep_view()[j],
                ),
            decreases n - i,
        {
            let line: &String = &lines[i];
            proof {
                assert(lines.deep_view()[i as int] == lines@[i as int]@);
            }
            match Entry::new(line.as_str()) {
                Err(e) => {
                    return Err(e);
                },
                Ok(en) => {
                    proof {
                        assert(en@ == entry_of_line(lines.deep_view()[i as int]));
                    }
                    entries.push(en);
                },
            }
            i = i + 1;
        }
        proof {
            let dv = lines.deep_view();
            assert(dv.len() == n);
            assert(entries.deep_view().len() == entries@.len());
            assert forall|k: int| 0 <= k < n implies entries.deep_view()[k] == entries_of(dv)[k]
                by {
                assert(entries.deep_view()[k] == entries@[k].deep_view());
                assert(entries_of(dv)[k] == entry_of_line(dv[k]));
            }
            assert(entries.deep_view() =~= entries_of(dv));
        }
        Ok(Block { name: String::from_str(name), entries })
    }

    /// Assembles this block's `"name": { ... }` JSON fragment, validating the
    /// object text by parsing it before it is embedded.
    pub fn to_json(&self) -> (r: Result<String, ConvertError>)
        ensures
            match block_to_json_spec(self@) {
                Ok(t) => r matches Ok(s) && s@ == t,
                Err(e) => r matches Err(e2) && e2 == e,
            },
    {
        let n = self.entries.len();
        let mut acc = String::new();
        let mut i: usize = n;
        while i > 0
            invariant
                0 <= i <= n,
                n == self.entries@.len(),
                entries_json_spec(self@.entries.subrange(i as int, n as int)) == Some(acc@),
            decreases i,
        {
            i = i - 1;
            let e: &Entry = &self.entries[i];
            proof {
                assert(self@.entries[i as int] == e@);
                assert(self@.entries.subrange(i as int, n as int).drop_first()
                    =~= self@.entries.subrange(i + 1 as int, n as int));
            }
            match e.to_raw_json() {
                Err(er) => {
                    proof {
                        lemma_entries_json_none(self@.entries, i as int);
                    }
                    return Err(er);
                },
                Ok(j) => {
                    if i + 1 == n {
                        acc = j;
                    } else {
                        let mut t = j;
                        t.append(",");
                        t.append(acc.as_str());
                        proof {
                            reveal_strlit(",");
                        }
                        acc = t;
                    }
                },
            }
        }
        proof {
            assert(self@.entries.subrange(0, n as int) =~= self@.entries);
        }
        let mut obj = String::from_str("{");
        obj.append(acc.as_str());
        obj.append("}");
        proof {
            reveal_strlit("{");
            reveal_strlit("}");
            assert(obj@ =~= seq!['{'] + acc@ + seq!['}']);
        }
        match json_check(obj.as_str()) {
            Err(_) => Err(ConvertError::StructuralValidationFailure),
            Ok(_) => {
                let mut out = String::from_str("\"");
                out.append(self.name.as_str());
                out.append("\": ");
                out.append(obj.as_str());
                proof {
                    reveal_strlit("\"");
                    reveal_strlit("\": ");
                    assert(("\": ")@ =~= seq!['"', ':', ' ']);
                    assert(out@ =~= seq!['"'] + self@.name + seq!['"', ':', ' '] + obj@);
                }
                Ok(out)
            },
        }
    }
}

/// Whether a line (after trimming) is a block header line.
pub open spec fn is_block_spec(line: Seq<char>) -> bool {
    !should_skip_spec(line) && trim_spec(line)[0] == '['
}

/// The leftmost `[name]` pattern at or after position `p`: the opening
/// bracket's position and the position of the first closing bracket after it,
/// which must leave at least one character between them.
pub open spec fn header_match_from(line: Seq<char>, p: int) -> Option<(int, int)>
    decreases line.len() - p,
    when 0 <= p
{
    if p >= line.len() {
        None
    } else if line[p] == '[' {
        match find_from(line, ']', p + 1) {
            Some(q) => if q >= p + 2 {
                Some((p, q))
            } else {
                header_match_from(line, p + 1)
            },
            None => None,
        }
    } else {
        header_match_from(line, p + 1)
    }
}

/// The name a header line carries: the text between the leftmost matching
/// bracket pair.
pub open spec fn header_name_spec(line: Seq<char>) -> Option<Seq<char>> {
    match header_match_from(line, 0) {
        Some(pq) => Some(line.subrange(pq.0 + 1, pq.1)),
        None => None,
    }
}

/// Extracts the block name from a header line.
fn header_name(line: &str) -> (r: Option<String>)
    ensures
        match header_name_spec(line@) {
            Some(nm) => r matches Some(s) && s@ == nm,
            None => r is None,
        },
{
    let n = line.unicode_len();
    let mut p: usize = 0;
    while p < n
        invariant
            n == line@.len(),
            0 <= p <= n,
            header_match_from(line@, 0) == header_match_from(line@, p as int),
        decreases n - p,
    {
        if line.get_char(p) == '[' {
            match find_char_from(line, ']', p + 1) {
                None => {
                    return None;
                },
                Some(q) => {
                    if q >= p + 2 {
                        proof {
                            lemma_find_from(line@, ']', p + 1);
                        }
                        return Some(String::from_str(line.substring_char(p + 1, q)));
                    }
                },
            }
        }
        p = p + 1;
    }
    None
}

/// The index just past a block's body: the first line at or after `j` that is
/// a header or is skip-worthy, or the end of input.
pub open spec fn block_end_from(lines: Seq<Seq<char>>, j: int) -> int
    decreases lines.len() - j,
    when 0 <= j
{
    if j >= lines.len() {
        lines.len() as int
    } else if is_block_spec(lines[j]) || should_skip_spec(lines[j]) {
        j
    } else {
        block_end_from(lines, j + 1)
    }
}

proof fn lemma_block_end_bounds(lines: Seq<Seq<char>>, j: int)
    requires
        0 <= j <= lines.len(),
    ensures
        j <= block_end_from(lines, j) <= lines.len(),
    decreases lines.len() - j,
{
    if j < lines.len() && !(is_block_spec(lines[j]) || should_skip_spec(lines[j])) {
        lemma_block_end_bounds(lines, j + 1);
    }
}

/// The block denoted by the header at `idx` and the body lines that follow
/// it, up to the next header, skip-worthy line, or end of input.
pub open spec fn parse_block_spec(lines: Seq<Seq<char>>, idx: int) -> Result<BlockV, ConvertError> {
    if !is_block_spec(lines[idx]) {
        Err(ConvertError::MalformedHeader)
    } else {
        match header_name_spec(lines[idx]) {
            None => Err(ConvertError::MalformedHeader),
            Some(name) => {
                let body = lines.subrange(idx + 1, block_end_from(lines, idx + 1));
                if all_entries_ok(body) {
                    Ok(BlockV { name: name, entries: entries_of(body) })
                } else {
                    Err(ConvertError::MalformedEntry)
                }
            },
        }
    }
}

/// The blocks denoted by the lines from `idx` on: skip-worthy and stray
/// content lines are passed over, and each header line opens one block.
pub open spec fn parse_doc_spec(lines: Seq<Seq<char>>, idx: int) -> Result<Seq<BlockV>, ConvertError>
    decreases lines.len() - idx,
    when 0 <= idx
{
    if idx >= lines.len() {
        Ok(Seq::empty())
    } else if should_skip_spec(lines[idx]) {
        parse_doc_spec(lines, idx + 1)
    } else if is_block_spec(lines[idx]) {
        match parse_block_spec(lines, idx) {
            Err(e) => Err(e),
            Ok(b) => match parse_doc_spec(lines, idx + 1) {
                Err(e) => Err(e),
                Ok(rest) => Ok(seq![b] + rest),
            },
        }
    } else {
        parse_doc_spec(lines, idx + 1)
    }
}

impl Json {
    /// Whether a line is a block header: not skip-worthy, and starting (after
    /// trimming) with an opening bracket.
    pub fn is_block(line: &str) -> (b: bool)
        ensures
            b == is_block_spec(line@),
    {
        if should_skip(line) {
            false
        } else {
            let t = trim_str(line);
            t.unicode_len() > 0 && t.get_char(0) == '['
        }
    }

    /// Parses the block whose header stands at `idx`: its body runs up to,
    /// but not including, the next header line, the next blank or comment
    /// line, or the end of input, whichever comes first.
    pub fn parse_block(lines: &Vec<String>, idx: usize) -> (r: Result<Block, ConvertError>)
        requires
            idx < lines@.len(),
        ensures
            match parse_block_spec(lines.deep_view(), idx as int) {
                Ok(b) => r matches Ok(bl) && bl@ == b,
                Err(e) => r matches Err(e2) && e2 == e,
            },
    {
        let line: &String = &lines[idx];
        proof {
            assert(lines.deep_view()[idx as int] == lines@[idx as int]@);
        }
        if !Json::is_block(line.as_str()) {
            return Err(ConvertError::MalformedHeader);
        }
        match header_name(line.as_str()) {
            None => Err(ConvertError::MalformedHeader),
            Some(nm) => {
                let n = lines.len();
                let mut end: usize = idx + 1;
                loop
                    invariant
                        idx + 1 <= end <= n,
                        n == lines@.len(),
                        block_end_from(lines.deep_view(), idx + 1) == block_end_from(
                            lines.deep_view(),
                            end as int,
                        ),
                    ensures
                        idx + 1 <= end <= n,
                        block_end_from(lines.deep_view(), idx + 1) == end as int,
                    decreases n - end,
                {
                    if end >= n {
                        break;
                    }
                    let l: &String = &lines[end];
                    proof {
                        assert(lines.deep_view()[end as int] == lines@[end as int]@);
                    }
                    if Json::is_block(l.as_str()) || should_skip(l.as_str()) {
                        break;
                    }
                    end = end + 1;
                }
                let body = slice_subrange(lines.as_slice(), idx + 1, end);
                proof {
                    assert(body.deep_view() =~= lines.deep_view().subrange(
                        idx + 1 as int,
                        end as int,
                    ));
                }
                match Block::new(nm.as_str(), body) {
                    Err(e) => Err(e),
                    Ok(b) => Ok(b),
                }
            },
        }
    }

    /// Parses whole source text into a document: lines are split and trimmed,
    /// skip-worthy lines are passed over, each header opens a block, and
    /// stray content lines outside any block's body are silently dropped.
    pub fn from_source(path: &str, source: &str) -> (r: Result<Json, ConvertError>)
        ensures
            match parse_doc_spec(source_lines_spec(source@), 0) {
                Ok(bs) => r matches Ok(j) && j@.path == path@ && j@.blocks == bs,
                Err(e) => r matches Err(e2) && e2 == e,
            },
    {
        let lines = source_lines(source);
        let n = lines.len();
        let mut blocks: Vec<Block> = Vec::new();
        let mut idx: usize = 0;
        while idx < n
            invariant
                0 <= idx <= n,
                n == lines@.len(),
                lines.deep_view() == source_lines_spec(source@),
                match parse_doc_spec(lines.deep_view(), idx as int) {
                    Ok(rest) => parse_doc_spec(lines.deep_view(), 0) == Ok::<
                        Seq<BlockV>,
                        ConvertError,
                    >(blocks.deep_view() + rest),
                    Err(e) => parse_doc_spec(lines.deep_view(), 0) == Err::<
                        Seq<BlockV>,
                        ConvertError,
                    >(e),
                },
            decreases n - idx,
        {
            let l: &String = &lines[idx];
            proof {
                assert(lines.deep_view()[idx as int] == lines@[idx as int]@);
            }
            if !should_skip(l.as_str()) && Json::is_block(l.as_str()) {
                match Json::parse_block(&lines, idx) {
                    Err(e) => {
                        return Err(e);
                    },
                    Ok(b) => {
                        let ghost old_blocks = blocks.deep_view();
                        blocks.push(b);
                        proof {
                            assert(blocks.deep_view() =~= old_blocks + seq![b@]);
                            let rest0 = parse_doc_spec(lines.deep_view(), idx as int);
                            if rest0 is Ok {
                                let rest1 = parse_doc_spec(lines.deep_view(), idx + 1 as int);
                                if rest1 is Ok {
                                    assert(old_blocks + (seq![b@] + rest1.unwrap()) =~= (old_blocks
                                        + seq![b@]) + rest1.unwrap());
                                }
                            }
                        }
                    },
                }
            }
            idx = idx + 1;
        }
        proof {
            assert(blocks.deep_view() + Seq::<BlockV>::empty() =~= blocks.deep_view());
        }
        Ok(Json { path: String::from_str(path), blocks })
    }

    /// Assembles the whole document text: every block's fragment, joined with
    /// commas inside one top-level object.
    pub fn to_document_text(&self) -> (r: Result<String, ConvertError>)
        ensures
            match doc_text_spec(self@.blocks) {
                Ok(t) => r matches Ok(s) && s@ == t,
                Err(e) => r matches Err(e2) && e2 == e,
            },
    {
        let n = self.blocks.len();
        let mut frags: Vec<String> = Vec::new();
        let mut i: usize = 0;
        while i < n
            invariant
                0 <= i <= n,
                n == self.blocks@.len(),
                frags@.len() == i,
                forall|j: int| 0 <= j < i ==> block_to_json_spec(self@.blocks[j]) == Ok::<
                    Seq<char>,
                    ConvertError,
                >((#[trigger] frags@[j])@),
            decreases n - i,
        {
            let b: &Block = &self.blocks[i];
            proof {
                assert(self@.blocks[i as int] == self.blocks@[i as int].deep_view());
            }
            match b.to_json() {
                Err(e) => {
                    proof {
                        assert forall|j: int| 0 <= j < i implies block_to_json_spec(
                            self@.blocks[j],
                        ) is Ok by {
                            assert(block_to_json_spec(self@.blocks[j]) == Ok::<
                                Seq<char>,
                                ConvertError,
                            >(frags@[j]@));
                        }
                        lemma_blocks_json_err(self@.blocks, i as int);
                    }
                    return Err(e);
                },
                Ok(f) => {
                    frags.push(f);
                },
            }
            i = i + 1;
        }
        proof {
            assert(frags.deep_view().len() == n);
            assert forall|j: int| 0 <= j < n implies block_to_json_spec(self@.blocks[j]) == Ok::<
                Seq<char>,
                ConvertError,
            >(frags.deep_view()[j]) by {
                assert(frags.deep_view()[j] == frags@[j]@);
            }
            lemma_blocks_json_ok(self@.blocks, frags.deep_view());
        }
        let mut acc = String::new();
        let mut k: usize = n;
        while k > 0
            invariant
                0 <= k <= n,
                frags@.len() == n,
                join_commas(frags.deep_view().subrange(k as int, n as int)) == acc@,
            decreases k,
        {
            k = k - 1;
            let f: &String = &frags[k];
            proof {
                assert(frags.deep_view()[k as int] == frags@[k as int]@);
                assert(frags.deep_view().subrange(k as int, n as int).drop_first()
                    =~= frags.deep_view().subrange(k + 1 as int, n as int));
            }
            if k + 1 == n {
                acc = f.clone();
            } else {
                let mut t = f.clone();
                t.append(",");
                t.append(acc.as_str());
                proof {
                    reveal_strlit(",");
                }
                acc = t;
            }
        }
        let mut out = String::from_str("{");
        out.append(acc.as_str());
        out.append("}");
        proof {
            reveal_strlit("{");
            reveal_strlit("}");
            assert(frags.deep_view().subrange(0, n as int) =~= frags.deep_view());
            assert(out@ =~= seq!['{'] + join_commas(frags.deep_view()) + seq!['}']);
        }
        Ok(out)
    }

    /// Validates the assembled document text by parsing it as JSON, then
    /// re-emits it pretty-printed. Whenever conversion succeeds, the output
    /// is the pretty-printed form of the assembled document text, and it
    /// parses as JSON.
    pub fn to_pretty_json(&self) -> (r: Result<String, ConvertError>)
        ensures
            r matches Ok(s) ==> json_ok(s@) && s@ == pretty_of(
                doc_text_spec(self@.blocks)->Ok_0,
            ),
            match doc_text_spec(self@.blocks) {
                Err(e) => r matches Err(e2) && e2 == e,
                Ok(t) => (if json_ok(t) {
                    r is Ok
                } else {
                    r matches Err(e2) && e2 == ConvertError::StructuralValidationFailure
                }),
            },
    {
        match self.to_document_text() {
            Err(e) => Err(e),
            Ok(doc) => match json_pretty(doc.as_str()) {
                Ok(out) => Ok(out),
                Err(_) => Err(ConvertError::StructuralValidationFailure),
            },
        }
    }

    /// The output path: the source path with its final extension replaced by
    /// `json` (or with `.json` appended when the path has no extension).
    pub fn output_path(&self) -> (r: String)
        ensures
            r@ == output_path_spec(self@.path),
    {
        let s = self.path.as_str();
        let n = s.unicode_len();
        match find_last_dot(s) {
            Some(i) => {
                proof {
                    lemma_rfind_bounds(self.path@, '.', n as int - 1);
                }
                let mut out = String::from_str(s.substring_char(0, i));
                out.append(".json");
                proof {
                    reveal_strlit(".json");
                    assert((".json")@ =~= json_ext());
                    assert(out@ =~= self@.path.subrange(0, i as int) + json_ext());
                }
                out
            },
            None => {
                let mut out = String::from_str(s);
                out.append(".json");
                proof {
                    reveal_strlit(".json");
                    assert((".json")@ =~= json_ext());
                    assert(out@ =~= self@.path + json_ext());
                }
                out
            },
        }
    }
}

/// The given fragments joined with commas.
pub open spec fn join_commas(frags: Seq<Seq<char>>) -> Seq<char>
    decreases frags.len(),
{
    if frags.len() == 0 {
        Seq::empty()
    } else if frags.len() == 1 {
        frags[0]
    } else {
        frags[0] + seq![','] + join_commas(frags.drop_first())
    }
}

/// The joined fragments of all blocks, or the first failing block's error.
pub open spec fn blocks_json_spec(blocks: Seq<BlockV>) -> Result<Seq<char>, ConvertError>
    decreases blocks.len(),
{
    if blocks.len() == 0 {
        Ok(Seq::empty())
    } else {
        match block_to_json_spec(blocks[0]) {
            Err(e) => Err(e),
            Ok(f) => match blocks_json_spec(blocks.drop_first()) {
                Err(e) => Err(e),
                Ok(rest) => if blocks.len() == 1 {
                    Ok(f)
                } else {
                    Ok(f + seq![','] + rest)
                },
            },
        }
    }
}

/// The whole document's assembled JSON text, before pretty-printing.
pub open spec fn doc_text_spec(blocks: Seq<BlockV>) -> Result<Seq<char>, ConvertError> {
    match blocks_json_spec(blocks) {
        Err(e) => Err(e),
        Ok(body) => Ok(seq!['{'] + body + seq!['}']),
    }
}

proof fn lemma_blocks_json_err(blocks: Seq<BlockV>, i: int)
    requires
        0 <= i < blocks.len(),
        forall|j: int| 0 <= j < i ==> block_to_json_spec(blocks[j]) is Ok,
        block_to_json_spec(blocks[i]) is Err,
    ensures
        blocks_json_spec(blocks) == Err::<Seq<char>, ConvertError>(
            block_to_json_spec(blocks[i])->Err_0,
        ),
    decreases blocks.len(),
{
    if i > 0 {
        lemma_blocks_json_err(blocks.drop_first(), i - 1);
    }
}

proof fn lemma_blocks_json_ok(blocks: Seq<BlockV>, frags: Seq<Seq<char>>)
    requires
        frags.len() == blocks.len(),
        forall|j: int| 0 <= j < blocks.len() ==> block_to_json_spec(blocks[j]) == Ok::<
            Seq<char>,
            ConvertError,
        >(frags[j]),
    ensures
        blocks_json_spec(blocks) == Ok::<Seq<char>, ConvertError>(join_commas(frags)),
    decreases blocks.len(),
{
    if blocks.len() > 0 {
        lemma_blocks_json_ok(blocks.drop_first(), frags.drop_first());
    }
}

/// The extension text an output path ends with.
pub open spec fn json_ext() -> Seq<char> {
    seq!['.', 'j', 's', 'o', 'n']
}

/// The last position at or before `i` holding `c`, if any.
pub open spec fn rfind_char(s: Seq<char>, c: char, i: int) -> Option<int>
    decreases i + 1,
    when i < s.len()
{
    if i < 0 {
        None
    } else if s[i] == c {
        Some(i)
    } else {
        rfind_char(s, c, i - 1)
    }
}

proof fn lemma_rfind_bounds(s: Seq<char>, c: char, i: int)
    requires
        i < s.len(),
    ensures
        match rfind_char(s, c, i) {
            Some(j) => 0 <= j <= i && s[j] == c,
            None => true,
        },
    decreases i + 1,
{
    if i >= 0 && s[i] != c {
        lemma_rfind_bounds(s, c, i - 1);
    }
}

/// The output path for a source path: everything from the last dot on is
/// replaced by `.json`, so the final extension becomes `json`; a path
/// without a dot gets `.json` appended, so the output never coincides with
/// the input.
pub open spec fn output_path_spec(s: Seq<char>) -> Seq<char> {
    match rfind_char(s, '.', s.len() - 1) {
        Some(i) => s.subrange(0, i) + json_ext(),
        None => s + json_ext(),
    }
}

/// Finds the last dot of a path.
fn find_last_dot(s: &str) -> (r: Option<usize>)
    ensures
        match r {
            Some(i) => rfind_char(s@, '.', s@.len() - 1) == Some(i as int),
            None => rfind_char(s@, '.', s@.len() - 1) is None,
        },
{
    let n = s.unicode_len();
    let mut i: usize = n;
    while i > 0
        invariant
            0 <= i <= n,
            n == s@.len(),
            rfind_char(s@, '.', n as int - 1) == rfind_char(s@, '.', i as int - 1),
        decreases i,
    {
        i = i - 1;
        if s.get_char(i) == '.' {
            return Some(i);
        }
    }
    None
}

/// Decides whether any input files were supplied at all.
pub fn check_files(files: &Vec<String>) -> (r: Result<(), ConvertError>)
    ensures
        files@.len() > 0 ==> r is Ok,
        files@.len() == 0 ==> (r matches Err(e) && e == ConvertError::MissingArguments),
{
    if files.len() == 0 {
        Err(ConvertError::MissingArguments)
    } else {
        Ok(())
    }
}

/// A blank line, comment line, or header line truncates a block's body: the
/// body reaching from the header at `idx` never runs to or past such a line.
pub proof fn lemma_skip_truncates_block(lines: Seq<Seq<char>>, idx: int, j: int)
    requires
        0 <= idx < lines.len(),
        idx < j < lines.len(),
        should_skip_spec(lines[j]) || is_block_spec(lines[j]),
    ensures
        block_end_from(lines, idx + 1) <= j,
{
    lemma_block_end_min(lines, idx + 1, j);
}

proof fn lemma_block_end_min(lines: Seq<Seq<char>>, k: int, j: int)
    requires
        0 <= k <= j < lines.len(),
        should_skip_spec(lines[j]) || is_block_spec(lines[j]),
    ensures
        block_end_from(lines, k) <= j,
    decreases j - k,
{
    if k < j && !(is_block_spec(lines[k]) || should_skip_spec(lines[k])) {
        lemma_block_end_min(lines, k + 1, j);
    }
}

/// A body line without `=` anywhere inside a block's body makes that block's
/// parse fail with a `MalformedEntry` error.
pub proof fn lemma_malformed_entry_aborts(lines: Seq<Seq<char>>, idx: int, j: int)
    requires
        0 <= idx < lines.len(),
        is_block_spec(lines[idx]),
        header_name_spec(lines[idx]) is Some,
        idx < j < block_end_from(lines, idx + 1),
        split_entry_spec(lines[j]) is None,
    ensures
        parse_block_spec(lines, idx) == Err::<BlockV, ConvertError>(ConvertError::MalformedEntry),
{
    let end = block_end_from(lines, idx + 1);
    lemma_block_end_bounds(lines, idx + 1);
    let body = lines.subrange(idx + 1, end);
    assert(body[j - idx - 1] == lines[j]);
    assert(!all_entries_ok(body));
}

/// Any header whose block fails to parse makes the whole document parse fail:
/// the conversion aborts rather than emitting partial output.
pub proof fn lemma_block_error_aborts_doc(lines: Seq<Seq<char>>, idx: int)
    requires
        0 <= idx < lines.len(),
        !should_skip_spec(lines[idx]),
        is_block_spec(lines[idx]),
        parse_block_spec(lines, idx) is Err,
    ensures
        parse_doc_spec(lines, 0) is Err,
{
    lemma_doc_aborts_from(lines, 0, idx);
}

proof fn lemma_doc_aborts_from(lines: Seq<Seq<char>>, k: int, idx: int)
    requires
        0 <= k <= idx < lines.len(),
        !should_skip_spec(lines[idx]),
        is_block_spec(lines[idx]),
        parse_block_spec(lines, idx) is Err,
    ensures
        parse_doc_spec(lines, k) is Err,
    decreases idx - k,
{
    if k < idx {
        lemma_doc_aborts_from(lines, k + 1, idx);
    }
}

} // verus!
