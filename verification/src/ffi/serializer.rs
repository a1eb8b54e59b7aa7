//! The `.giantt` text format: one line per item, lines in ascending order.
//!
//! ```text
//! ○ item_id!! 2d "Title" {"chart1","chart2"} tag1,tag2 >>> ⊢[dep1,dep2] @@@ due(2024-01-01) # comment
//! ```

use vstd::prelude::*;
use crate::ffi::text::{
    texts, sorted_texts, join, sort_texts, join_texts, text_order, lemma_text_order_total,
    lemma_map_same_elements, lex_le, KeyedText, keyed_texts, keyed_order, sorted_keyed, sort_keyed,
    lemma_keyed_order_total,
};
use vstd::seq_lib::lemma_sorted_unique;
use crate::storage::block_hex::hex_char;

verus! {

/// Progress of an item.
#[derive(Clone, Copy, Debug, PartialEq, Eq, Structural)]
pub enum GianttStatus {
    Todo,
    InProgress,
    Blocked,
    Completed,
}

impl Default for GianttStatus {
    fn default() -> (r: Self)
        ensures
            r == GianttStatus::Todo,
    {
        GianttStatus::Todo
    }
}

/// Urgency of an item.
#[derive(Clone, Copy, Debug, PartialEq, Eq, Structural)]
pub enum GianttPriority {
    Low,
    Medium,
    High,
    Critical,
}

impl Default for GianttPriority {
    fn default() -> (r: Self)
        ensures
            r == GianttPriority::Medium,
    {
        GianttPriority::Medium
    }
}

/// One task of a chart. The five lists of names (tags, charts and the three
/// relations) are sets: each name is listed once.
#[derive(Debug, Default)]
pub struct GianttItem {
    pub id: String,
    pub title: String,
    pub status: GianttStatus,
    pub priority: GianttPriority,
    pub duration: Option<String>,
    pub comment: Option<String>,
    pub tags: Vec<String>,
    pub charts: Vec<String>,
    pub requires: Vec<String>,
    pub anyof: Vec<String>,
    pub blocks: Vec<String>,
    pub time_constraints: Vec<String>,
}

/// All items of a chart, each under its own id.
#[derive(Debug, Default)]
pub struct GianttState {
    pub items: Vec<GianttItem>,
}

impl GianttItem {
    /// Each of the five name sets lists every name once.
    pub open spec fn well_formed(&self) -> bool {
        &&& texts(self.tags@).no_duplicates()
        &&& texts(self.charts@).no_duplicates()
        &&& texts(self.requires@).no_duplicates()
        &&& texts(self.anyof@).no_duplicates()
        &&& texts(self.blocks@).no_duplicates()
    }
}

/// The ids of the items.
pub open spec fn item_ids(items: Seq<GianttItem>) -> Seq<Seq<char>> {
    items.map_values(|it: GianttItem| it.id@)
}

impl GianttState {
    /// Every item is well formed and no two items share an id.
    pub open spec fn well_formed(&self) -> bool {
        &&& forall|i: int| 0 <= i < self.items@.len() ==> (#[trigger] self.items@[i]).well_formed()
        &&& item_ids(self.items@).no_duplicates()
    }
}

/// How `serde_json` writes one character inside a string literal: quote and
/// backslash behind a backslash; backspace, tab, line feed, form feed and carriage
/// return as `\b`, `\t`, `\n`, `\f`, `\r`; other characters below 0x20 as `\u00`
/// and two lower-case hex digits; everything else as it is.
pub open spec fn json_escape_char(c: char) -> Seq<char> {
    let v = c as u32;
    if c == '"' {
        seq!['\\', '"']
    } else if c == '\\' {
        seq!['\\', '\\']
    } else if v == 8 {
        seq!['\\', 'b']
    } else if v == 9 {
        seq!['\\', 't']
    } else if v == 10 {
        seq!['\\', 'n']
    } else if v == 12 {
        seq!['\\', 'f']
    } else if v == 13 {
        seq!['\\', 'r']
    } else if v < 32 {
        seq!['\\', 'u', '0', '0', hex_char((v / 16) as u8), hex_char((v % 16) as u8)]
    } else {
        seq![c]
    }
}

/// A JSON string literal holding `s`, as `serde_json` writes it: each character
/// escaped as `json_escape_char` says, between double quotes.
pub open spec fn json_string_spec(s: Seq<char>) -> Seq<char> {
    seq!['"'] + s.map_values(|c: char| json_escape_char(c)).flatten() + seq!['"']
}

/// The error type of `serde_json`.
#[verifier::external_type_specification]
#[verifier::external_body]
pub struct ExJsonError(serde_json::Error);

/// `serde_json::to_string` on a string. The contract claims that it succeeds
/// (a string's serialisation never fails and writing into memory does not
/// fail) and that it gives the string literal `json_string_spec` spells out.
#[verifier::external_body]
fn json_string(s: &String) -> (r: Result<String, serde_json::Error>)
    ensures
        r is Ok,
        r matches Ok(t) ==> t@ == json_string_spec(s@),
{
    serde_json::to_string(s)
}

/// The status symbol.
pub open spec fn status_text(s: GianttStatus) -> Seq<char> {
    match s {
        GianttStatus::Todo => "○"@,
        GianttStatus::InProgress => "◑"@,
        GianttStatus::Blocked => "⊘"@,
        GianttStatus::Completed => "●"@,
    }
}

/// The mark written right after the id.
pub open spec fn priority_text(p: GianttPriority) -> Seq<char> {
    match p {
        GianttPriority::Low => "..."@,
        GianttPriority::Medium => Seq::empty(),
        GianttPriority::High => "!!"@,
        GianttPriority::Critical => "!!!"@,
    }
}

/// The status symbols: an empty circle (U+25CB) for to do, a half-filled circle
/// (U+25D1) for in progress, a slashed circle (U+2298) for blocked and a filled circle
/// (U+25CF) for completed; no two statuses share a symbol.
pub proof fn lemma_status_symbols(s: GianttStatus, t: GianttStatus)
    ensures
        status_text(GianttStatus::Todo) == seq!['\u{25CB}'],
        status_text(GianttStatus::InProgress) == seq!['\u{25D1}'],
        status_text(GianttStatus::Blocked) == seq!['\u{2298}'],
        status_text(GianttStatus::Completed) == seq!['\u{25CF}'],
        s != t ==> status_text(s) != status_text(t),
{
    reveal_strlit("○");
    reveal_strlit("◑");
    reveal_strlit("⊘");
    reveal_strlit("●");
    assert("○"@ =~= seq!['\u{25CB}']);
    assert("◑"@ =~= seq!['\u{25D1}']);
    assert("⊘"@ =~= seq!['\u{2298}']);
    assert("●"@ =~= seq!['\u{25CF}']);
    if s != t && status_text(s) == status_text(t) {
        assert(status_text(s)[0] == status_text(t)[0]);
    }
}

/// The priority marks: `...` for low, nothing for medium, `!!` for high and `!!!` for
/// critical; no two priorities share a mark, so the mark reads back as the priority.
pub proof fn lemma_priority_marks(p: GianttPriority, q: GianttPriority)
    ensures
        priority_text(GianttPriority::Low) == seq!['.', '.', '.'],
        priority_text(GianttPriority::Medium) == Seq::<char>::empty(),
        priority_text(GianttPriority::High) == seq!['!', '!'],
        priority_text(GianttPriority::Critical) == seq!['!', '!', '!'],
        p != q ==> priority_text(p) != priority_text(q),
{
    reveal_strlit("...");
    reveal_strlit("!!");
    reveal_strlit("!!!");
    assert("..."@ =~= seq!['.', '.', '.']);
    assert("!!"@ =~= seq!['!', '!']);
    assert("!!!"@ =~= seq!['!', '!', '!']);
    if p != q {
        let a = priority_text(p);
        let b = priority_text(q);
        if a == b {
            assert(a.len() == b.len());
            if a.len() == 3 {
                assert(a[0] == b[0]);
            }
        }
    }
}

/// The names in ascending order, comma separated.
pub open spec fn sorted_list(v: Seq<String>) -> Seq<char> {
    join(sorted_texts(texts(v)), ","@)
}

/// `s` in double quotes.
pub open spec fn quoted(s: Seq<char>) -> Seq<char> {
    "\""@ + s + "\""@
}

/// The charts: `{}`, or the quoted names in ascending order in braces.
pub open spec fn charts_text(v: Seq<String>) -> Seq<char> {
    if v.len() == 0 {
        "{}"@
    } else {
        "{"@ + join(sorted_texts(texts(v)).map_values(|c: Seq<char>| quoted(c)), ","@) + "}"@
    }
}

/// One relation: its marker and the names in ascending order in brackets.
pub open spec fn relation_text(marker: Seq<char>, v: Seq<String>) -> Seq<char> {
    marker + "["@ + sorted_list(v) + "]"@
}

/// The relation of `v` under `marker`, if `v` names anything.
pub open spec fn relation_part(marker: Seq<char>, v: Seq<String>) -> Seq<Seq<char>> {
    if v.len() > 0 {
        seq![relation_text(marker, v)]
    } else {
        Seq::empty()
    }
}

/// The relations of an item that name anything: requires, any-of, blocks.
pub open spec fn relation_parts(item: GianttItem) -> Seq<Seq<char>> {
    relation_part("⊢"@, item.requires@) + relation_part("⋲"@, item.anyof@) + relation_part(
        "►"@,
        item.blocks@,
    )
}

/// The duration, `0s` where there is none.
pub open spec fn duration_text(d: Option<String>) -> Seq<char> {
    match d {
        Some(s) => s@,
        None => "0s"@,
    }
}

/// `lead` then `body`, or nothing where `present` is false.
pub open spec fn optional(present: bool, lead: Seq<char>, body: Seq<char>) -> Seq<char> {
    if present {
        lead + body
    } else {
        Seq::empty()
    }
}

/// The comment, where there is a non-empty one.
pub open spec fn comment_text(c: Option<String>) -> Seq<char> {
    match c {
        Some(s) => optional(s@.len() > 0, " # "@, s@),
        None => Seq::empty(),
    }
}

/// The line of an item whose title is written as `title_json`.
pub open spec fn item_line(item: GianttItem, title_json: Seq<char>) -> Seq<char> {
    status_text(item.status) + " "@ + item.id@ + priority_text(item.priority) + " "@
        + duration_text(item.duration) + " "@ + title_json + " "@ + charts_text(item.charts@)
        + optional(item.tags@.len() > 0, " "@, sorted_list(item.tags@))
        + optional(relation_parts(item).len() > 0, " >>> "@, join(relation_parts(item), " "@))
        + optional(
        item.time_constraints@.len() > 0,
        " @@@ "@,
        join(texts(item.time_constraints@), " "@),
    ) + comment_text(item.comment)
}

/// The pieces of a line, character by character: quotes around a JSON title and chart
/// names; `{}` for no charts and braces around the comma-separated names otherwise;
/// `0s` for a missing duration; ` # ` before a non-empty comment and nothing for an
/// empty or missing one; the markers U+22A2, U+22F2 and U+25BA for requires, any-of and
/// blocks, each with its comma-separated names in brackets; comma-separated tags.
pub proof fn lemma_line_pieces(item: GianttItem, s: Seq<char>)
    ensures
        quoted(s) == seq!['"'] + s + seq!['"'],
        sorted_list(item.tags@) == join(sorted_texts(texts(item.tags@)), seq![',']),
        item.charts@.len() == 0 ==> charts_text(item.charts@) == seq!['{', '}'],
        item.charts@.len() > 0 ==> charts_text(item.charts@) == seq!['{'] + join(
            sorted_texts(texts(item.charts@)).map_values(|c: Seq<char>| seq!['"'] + c + seq!['"']),
            seq![','],
        ) + seq!['}'],
        item.duration is None ==> duration_text(item.duration) == seq!['0', 's'],
        item.duration matches Some(d) ==> duration_text(item.duration) == d@,
        (item.comment matches Some(c) && c@.len() > 0) ==> comment_text(item.comment) == seq![' ', '#', ' '] + item.comment->0@,
        !(item.comment matches Some(c) && c@.len() > 0) ==> comment_text(item.comment) == Seq::<char>::empty(),
        relation_parts(item) == (if item.requires@.len() > 0 {
            seq![seq!['\u{22A2}', '['] + join(sorted_texts(texts(item.requires@)), seq![',']) + seq![']']]
        } else {
            Seq::<Seq<char>>::empty()
        }) + (if item.anyof@.len() > 0 {
            seq![seq!['\u{22F2}', '['] + join(sorted_texts(texts(item.anyof@)), seq![',']) + seq![']']]
        } else {
            Seq::<Seq<char>>::empty()
        }) + (if item.blocks@.len() > 0 {
            seq![seq!['\u{25BA}', '['] + join(sorted_texts(texts(item.blocks@)), seq![',']) + seq![']']]
        } else {
            Seq::<Seq<char>>::empty()
        }),
{
    reveal_strlit("\"");
    reveal_strlit(",");
    reveal_strlit("{}");
    reveal_strlit("{");
    reveal_strlit("}");
    reveal_strlit("0s");
    reveal_strlit(" # ");
    reveal_strlit("⊢");
    reveal_strlit("⋲");
    reveal_strlit("►");
    reveal_strlit("[");
    reveal_strlit("]");
    assert("\""@ =~= seq!['"']);
    assert(","@ =~= seq![',']);
    assert("{}"@ =~= seq!['{', '}']);
    assert("{"@ =~= seq!['{']);
    assert("}"@ =~= seq!['}']);
    assert("0s"@ =~= seq!['0', 's']);
    assert(" # "@ =~= seq![' ', '#', ' ']);
    assert("⊢"@ =~= seq!['\u{22A2}']);
    assert("⋲"@ =~= seq!['\u{22F2}']);
    assert("►"@ =~= seq!['\u{25BA}']);
    assert("["@ =~= seq!['[']);
    assert("]"@ =~= seq![']']);
    assert(seq!['\u{22A2}'] + seq!['['] =~= seq!['\u{22A2}', '[']);
    assert(seq!['\u{22F2}'] + seq!['['] =~= seq!['\u{22F2}', '[']);
    assert(seq!['\u{25BA}'] + seq!['['] =~= seq!['\u{25BA}', '[']);
    let qf = |c: Seq<char>| quoted(c);
    let qg = |c: Seq<char>| seq!['"'] + c + seq!['"'];
    assert(sorted_texts(texts(item.charts@)).map_values(qf) =~= sorted_texts(texts(item.charts@)).map_values(qg));
}

/// The whole line, separator by separator: status symbol, a space, the id followed by its
/// priority mark, a space, the duration, a space, the title, a space, the charts; then a
/// space and the tags, ` >>> ` and the relations separated by spaces, ` @@@ ` and the time
/// constraints separated by spaces, each only where there are any; then the comment.
pub proof fn lemma_line_layout(item: GianttItem, title_json: Seq<char>)
    ensures
        item_line(item, title_json) == status_text(item.status) + seq![' '] + item.id@ + priority_text(item.priority)
            + seq![' '] + duration_text(item.duration) + seq![' '] + title_json + seq![' '] + charts_text(item.charts@)
            + (if item.tags@.len() > 0 {
            seq![' '] + sorted_list(item.tags@)
        } else {
            Seq::<char>::empty()
        }) + (if relation_parts(item).len() > 0 {
            seq![' ', '>', '>', '>', ' '] + join(relation_parts(item), seq![' '])
        } else {
            Seq::<char>::empty()
        }) + (if item.time_constraints@.len() > 0 {
            seq![' ', '@', '@', '@', ' '] + join(texts(item.time_constraints@), seq![' '])
        } else {
            Seq::<char>::empty()
        }) + comment_text(item.comment),
{
    reveal_strlit(" ");
    reveal_strlit(" >>> ");
    reveal_strlit(" @@@ ");
    assert(" "@ =~= seq![' ']);
    assert(" >>> "@ =~= seq![' ', '>', '>', '>', ' ']);
    assert(" @@@ "@ =~= seq![' ', '@', '@', '@', ' ']);
}

/// The line of an item, its title written by `serde_json`.
pub open spec fn item_text(item: GianttItem) -> Seq<char> {
    item_line(item, json_string_spec(item.title@))
}

/// Each item's id and line, in the items' order.
pub open spec fn item_entries(items: Seq<GianttItem>) -> Seq<KeyedText> {
    items.map_values(|it: GianttItem| (it.id@, item_text(it)))
}

/// The lines of entries, in the entries' order.
pub open spec fn entry_lines(entries: Seq<KeyedText>) -> Seq<Seq<char>> {
    entries.map_values(|e: KeyedText| e.1)
}

/// The text of a chart: the lines of its items in ascending order of item id (ties,
/// which a chart with distinct ids never has, by line), one per line.
pub open spec fn state_text(items: Seq<GianttItem>) -> Seq<char> {
    join(entry_lines(sorted_keyed(item_entries(items))), "\n"@)
}

/// The lines of a chart are separated by line feeds.
pub proof fn lemma_state_separator(items: Seq<GianttItem>)
    ensures
        state_text(items) == join(entry_lines(sorted_keyed(item_entries(items))), seq!['\n']),
{
    reveal_strlit("\n");
    assert("\n"@ =~= seq!['\n']);
}

/// The text of a chart does not depend on the order in which its items are
/// held: two sequences with the same items give the same text.
pub proof fn lemma_state_text_order_free(a: Seq<GianttItem>, b: Seq<GianttItem>)
    requires
        a.to_multiset() == b.to_multiset(),
    ensures
        state_text(a) == state_text(b),
{
    lemma_map_same_elements(a, b, |it: GianttItem| (it.id@, item_text(it)));
    assert(item_entries(a) == a.map_values(|it: GianttItem| (it.id@, item_text(it))));
    assert(item_entries(b) == b.map_values(|it: GianttItem| (it.id@, item_text(it))));
    lemma_keyed_order_total();
    item_entries(a).lemma_sort_by_ensures(keyed_order());
    item_entries(b).lemma_sort_by_ensures(keyed_order());
    lemma_sorted_unique(sorted_keyed(item_entries(a)), sorted_keyed(item_entries(b)), keyed_order());
}

/// The lines of a chart are those of its items, each once, in ascending order of
/// item id; where the ids are distinct, strictly ascending.
pub proof fn lemma_state_lines_by_id(items: Seq<GianttItem>)
    ensures
        sorted_keyed(item_entries(items)).to_multiset() == item_entries(items).to_multiset(),
        forall|i: int, j: int|
            0 <= i < j < items.len() ==> lex_le(
                #[trigger] sorted_keyed(item_entries(items))[i].0,
                #[trigger] sorted_keyed(item_entries(items))[j].0,
            ),
        item_ids(items).no_duplicates() ==> forall|i: int, j: int|
            0 <= i < j < items.len() ==> #[trigger] sorted_keyed(item_entries(items))[i].0
                != #[trigger] sorted_keyed(item_entries(items))[j].0,
{
    broadcast use vstd::seq_lib::group_to_multiset_ensures;

    let e = item_entries(items);
    let s = sorted_keyed(e);
    lemma_keyed_order_total();
    e.lemma_sort_by_ensures(keyed_order());
    assert(s.len() == items.len()) by {
        assert(s.to_multiset().len() == e.to_multiset().len());
    }
    assert forall|i: int, j: int| 0 <= i < j < items.len() implies lex_le(#[trigger] s[i].0, #[trigger] s[j].0) by {
        assert(keyed_order()(s[i], s[j]));
        if s[i].0 == s[j].0 {
            assert(keyed_order()(s[i], s[i]));
            assert(lex_le(s[i].0, s[i].0)) by {
                lemma_text_order_total();
                assert(text_order()(s[i].0, s[i].0));
            }
        }
    }
    if item_ids(items).no_duplicates() {
        let key = |x: KeyedText| x.0;
        lemma_map_same_elements(s, e, key);
        assert(e.map_values(key) =~= item_ids(items));
        item_ids(items).lemma_multiset_has_no_duplicates();
        s.map_values(key).lemma_multiset_has_no_duplicates_conv();
        assert forall|i: int, j: int| 0 <= i < j < items.len() implies #[trigger] s[i].0 != #[trigger] s[j].0 by {
            assert(s.map_values(key)[i] == s[i].0);
            assert(s.map_values(key)[j] == s[j].0);
        }
    }
}

fn status_symbol(s: GianttStatus) -> (r: &'static str)
    ensures
        r@ == status_text(s),
{
    match s {
        GianttStatus::Todo => "○",
        GianttStatus::InProgress => "◑",
        GianttStatus::Blocked => "⊘",
        GianttStatus::Completed => "●",
    }
}

fn append_priority(out: &mut String, p: GianttPriority)
    ensures
        final(out)@ == old(out)@ + priority_text(p),
{
    match p {
        GianttPriority::Low => out.append("..."),
        GianttPriority::Medium => {},
        GianttPriority::High => out.append("!!"),
        GianttPriority::Critical => out.append("!!!"),
    }
}

fn copy_texts(v: &Vec<String>) -> (r: Vec<String>)
    ensures
        texts(r@) == texts(v@),
{
    let mut r: Vec<String> = Vec::new();
    let mut i: usize = 0;
    while i < v.len()
        invariant
            0 <= i <= v@.len(),
            texts(r@) == texts(v@).take(i as int),
        decreases v@.len() - i,
    {
        let ghost prev = r@;
        r.push(v[i].clone());
        proof {
            assert(texts(r@) =~= texts(prev).push(v@[i as int]@));
            assert(texts(v@).take(i + 1) =~= texts(v@).take(i as int).push(v@[i as int]@));
        }
        i = i + 1;
    }
    proof {
        assert(texts(v@).take(v@.len() as int) =~= texts(v@));
    }
    r
}

fn sorted_names(v: &Vec<String>) -> (r: Vec<String>)
    ensures
        texts(r@) == sorted_texts(texts(v@)),
{
    sort_texts(copy_texts(v))
}

fn quote_all(v: &Vec<String>) -> (r: Vec<String>)
    ensures
        texts(r@) == texts(v@).map_values(|c: Seq<char>| quoted(c)),
{
    let ghost want = texts(v@).map_values(|c: Seq<char>| quoted(c));
    let mut r: Vec<String> = Vec::new();
    let mut i: usize = 0;
    while i < v.len()
        invariant
            0 <= i <= v@.len(),
            want == texts(v@).map_values(|c: Seq<char>| quoted(c)),
            texts(r@) == want.take(i as int),
        decreases v@.len() - i,
    {
        let ghost prev = r@;
        let mut q = "\"".to_owned();
        q.append(v[i].as_str());
        q.append("\"");
        r.push(q);
        proof {
            assert(q@ == quoted(v@[i as int]@));
            assert(texts(r@) =~= texts(prev).push(q@));
            assert(want.take(i + 1) =~= want.take(i as int).push(want[i as int]));
        }
        i = i + 1;
    }
    proof {
        assert(want.take(v@.len() as int) =~= want);
    }
    r
}

fn relation(marker: &str, v: &Vec<String>) -> (r: String)
    ensures
        r@ == relation_text(marker@, v@),
{
    let sorted = sorted_names(v);
    let list = join_texts(&sorted, ",");
    let mut r = marker.to_owned();
    r.append("[");
    r.append(list.as_str());
    r.append("]");
    r
}

fn push_relation(parts: &mut Vec<String>, marker: &str, v: &Vec<String>)
    ensures
        texts(final(parts)@) == texts(old(parts)@) + relation_part(marker@, v@),
{
    if v.len() > 0 {
        let r = relation(marker, v);
        parts.push(r);
        proof {
            assert(texts(parts@) =~= texts(old(parts)@) + relation_part(marker@, v@));
        }
    } else {
        proof {
            assert(texts(parts@) =~= texts(old(parts)@) + relation_part(marker@, v@));
        }
    }
}

/// `lead` then `body` where `present` holds, else nothing.
fn optional_segment(present: bool, lead: &str, body: &String) -> (r: String)
    ensures
        r@ == optional(present, lead@, body@),
{
    let mut r = String::new();
    if present {
        r.append(lead);
        r.append(body.as_str());
        proof {
            assert(r@ =~= lead@ + body@);
        }
    } else {
        proof {
            assert(r@ =~= Seq::<char>::empty());
        }
    }
    r
}

fn charts_segment(charts: &Vec<String>) -> (r: String)
    ensures
        r@ == charts_text(charts@),
{
    if charts.len() == 0 {
        "{}".to_owned()
    } else {
        let sorted = sorted_names(charts);
        let quoted_charts = quote_all(&sorted);
        let list = join_texts(&quoted_charts, ",");
        let mut r = "{".to_owned();
        r.append(list.as_str());
        r.append("}");
        r
    }
}

fn tags_segment(tags: &Vec<String>) -> (r: String)
    ensures
        r@ == optional(tags@.len() > 0, " "@, sorted_list(tags@)),
{
    let sorted = sorted_names(tags);
    let list = join_texts(&sorted, ",");
    optional_segment(tags.len() > 0, " ", &list)
}

fn relations_segment(item: &GianttItem) -> (r: String)
    ensures
        r@ == optional(relation_parts(*item).len() > 0, " >>> "@, join(relation_parts(*item), " "@)),
{
    let mut parts: Vec<String> = Vec::new();
    push_relation(&mut parts, "⊢", &item.requires);
    push_relation(&mut parts, "⋲", &item.anyof);
    push_relation(&mut parts, "►", &item.blocks);
    proof {
        assert(texts(parts@) =~= relation_parts(*item));
    }
    let rel = join_texts(&parts, " ");
    optional_segment(parts.len() > 0, " >>> ", &rel)
}

fn comment_segment(comment: &Option<String>) -> (r: String)
    ensures
        r@ == comment_text(*comment),
{
    match comment {
        Some(c) => optional_segment(c.as_str().unicode_len() > 0, " # ", c),
        None => String::new(),
    }
}

/// The line of `item` with its title already written as `title_json`.
pub fn format_giantt_item(item: &GianttItem, title_json: &str) -> (r: String)
    ensures
        r@ == item_line(*item, title_json@),
{
    let mut out = status_symbol(item.status).to_owned();
    out.append(" ");
    out.append(item.id.as_str());
    append_priority(&mut out, item.priority);
    out.append(" ");
    match &item.duration {
        Some(d) => out.append(d.as_str()),
        None => out.append("0s"),
    }
    out.append(" ");
    out.append(title_json);
    out.append(" ");
    let charts = charts_segment(&item.charts);
    out.append(charts.as_str());
    let tags = tags_segment(&item.tags);
    out.append(tags.as_str());
    let relations = relations_segment(item);
    out.append(relations.as_str());
    let tc = join_texts(&item.time_constraints, " ");
    let times = optional_segment(item.time_constraints.len() > 0, " @@@ ", &tc);
    out.append(times.as_str());
    let comment = comment_segment(&item.comment);
    out.append(comment.as_str());
    out
}

/// The line of `item`: status, id with its priority mark, duration, the
/// title as a JSON string, charts, then tags, relations, time constraints
/// and comment where there are any.
pub fn serialize_giantt_item(item: &GianttItem) -> (r: String)
    requires
        item.well_formed(),
    ensures
        r@ == item_text(*item),
{
    let title_json = match json_string(&item.title) {
        Ok(t) => t,
        Err(_) => {
            "\"\"".to_owned()
        },
    };
    format_giantt_item(item, title_json.as_str())
}

/// The chart as text: the lines of its items in ascending order of item id,
/// separated by newlines.
pub fn serialize_giantt_state(state: &GianttState) -> (r: String)
    requires
        state.well_formed(),
    ensures
        r@ == state_text(state.items@),
{
    let items = &state.items;
    let mut entries: Vec<(String, String)> = Vec::new();
    let mut i: usize = 0;
    while i < items.len()
        invariant
            0 <= i <= items@.len(),
            forall|k: int| 0 <= k < items@.len() ==> (#[trigger] items@[k]).well_formed(),
            keyed_texts(entries@) == item_entries(items@).take(i as int),
        decreases items@.len() - i,
    {
        let ghost prev = entries@;
        let line = serialize_giantt_item(&items[i]);
        let ghost entry: KeyedText = (items@[i as int].id@, item_text(items@[i as int]));
        entries.push((items[i].id.clone(), line));
        proof {
            assert(keyed_texts(entries@) =~= keyed_texts(prev).push(entry));
            assert(item_entries(items@).take(i + 1) =~= item_entries(items@).take(i as int).push(entry));
        }
        i = i + 1;
    }
    proof {
        assert(item_entries(items@).take(items@.len() as int) =~= item_entries(items@));
    }
    let sorted = sort_keyed(entries);
    let mut lines: Vec<String> = Vec::new();
    let mut k: usize = 0;
    while k < sorted.len()
        invariant
            0 <= k <= sorted@.len(),
            texts(lines@) == entry_lines(keyed_texts(sorted@)).take(k as int),
        decreases sorted@.len() - k,
    {
        let ghost prev = lines@;
        lines.push(sorted[k].1.clone());
        proof {
            assert(texts(lines@) =~= texts(prev).push(sorted@[k as int].1@));
            assert(entry_lines(keyed_texts(sorted@)).take(k + 1) =~= entry_lines(keyed_texts(sorted@)).take(
                k as int,
            ).push(sorted@[k as int].1@));
        }
        k = k + 1;
    }
    proof {
        assert(entry_lines(keyed_texts(sorted@)).take(sorted@.len() as int) =~= entry_lines(keyed_texts(sorted@)));
    }
    join_texts(&lines, "\n")
}

} // verus!
