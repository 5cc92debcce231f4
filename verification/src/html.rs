//! Transcription of the converter's HTML output into typed content blocks.
//!
//! The converter emits an HTML fragment.  A lookup from footnote identity to
//! rendered footnote body is built from the aside element with the reserved
//! footnotes identity (backlink anchors elided); the remaining top-level nodes
//! are then transcribed into headings, paragraphs, lists and quotes, with a
//! paragraph fallback for unrecognized tags.  Inline markup is serialized
//! recursively; an anchor whose role marks it as a footnote reference is
//! rewritten into a self-contained annotation element carrying the resolved
//! footnote body.

use vstd::prelude::*;

verus! {

use crate::content::{BlockData, BlockDataModel};

/// One node of the parsed HTML fragment, as plain values.
pub enum HtmlNode {
    Text(String),
    Element(HtmlElement),
    Comment(String),
}

/// One element of the parsed HTML fragment.  The parser keeps attributes in
/// a hash table, so their order here is arbitrary per process — no contract
/// relies on it; an attribute without a value carries `None`.
pub struct HtmlElement {
    pub name: String,
    pub id: Option<String>,
    pub attributes: Vec<(String, Option<String>)>,
    pub children: Vec<HtmlNode>,
}

/// `b` is the ASCII lowercasing of `a` (`b` is already lower case).
pub open spec fn lower_match(a: char, b: char) -> bool {
    b == a || ('A' <= a <= 'Z' && b as int == a as int + 32)
}

/// `a` equals `b` up to ASCII lowercasing of `a`.
pub open spec fn lower_eq(a: Seq<char>, b: Seq<char>) -> bool {
    a.len() == b.len() && forall|i: int| 0 <= i < a.len() ==> lower_match(a[i], #[trigger] b[i])
}

/// One serialized attribute, with its leading space.
pub open spec fn attr_one(a: (String, Option<String>)) -> Seq<char> {
    match a.1 {
        Option::Some(v) => " "@ + a.0@ + "=\""@ + v@ + "\""@,
        Option::None => " "@ + a.0@,
    }
}

/// The serialized attribute list, in list order.
pub open spec fn attrs_string(attrs: Seq<(String, Option<String>)>) -> Seq<char>
    decreases attrs.len(),
{
    if attrs.len() == 0 {
        Seq::empty()
    } else {
        attrs_string(attrs.drop_last()) + attr_one(attrs.last())
    }
}

/// The value of the first attribute named `name`, searched from `i` on.
pub open spec fn attr_first_from(
    attrs: Seq<(String, Option<String>)>,
    name: Seq<char>,
    i: int,
) -> Option<Option<Seq<char>>>
    decreases attrs.len() - i,
    when 0 <= i <= attrs.len()
{
    if i >= attrs.len() {
        None
    } else if attrs[i].0@ == name {
        Some(
            match attrs[i].1 {
                Option::Some(v) => Some(v@),
                Option::None => None,
            },
        )
    } else {
        attr_first_from(attrs, name, i + 1)
    }
}

/// The value of the first attribute named `name`.
pub open spec fn attr_first(attrs: Seq<(String, Option<String>)>, name: Seq<char>) -> Option<
    Option<Seq<char>>,
> {
    attr_first_from(attrs, name, 0)
}

/// The whitespace characters stripped from footnote reference numbers.
pub open spec fn is_ws(c: char) -> bool {
    c == ' ' || c == '\t' || c == '\n' || c == '\r'
}

/// First non-whitespace position at or after `i`.
pub open spec fn trim_start_idx(s: Seq<char>, i: int) -> int
    decreases s.len() - i,
    when 0 <= i <= s.len()
{
    if i < s.len() && is_ws(s[i]) {
        trim_start_idx(s, i + 1)
    } else {
        i
    }
}

/// Position after the last non-whitespace character before `j`.
pub open spec fn trim_end_idx(s: Seq<char>, j: int) -> int
    decreases j,
    when 0 <= j <= s.len()
{
    if j > 0 && is_ws(s[j - 1]) {
        trim_end_idx(s, j - 1)
    } else {
        j
    }
}

/// `s` with leading and trailing whitespace removed.
pub open spec fn trim_view(s: Seq<char>) -> Seq<char> {
    let a = trim_start_idx(s, 0);
    let b = trim_end_idx(s, s.len() as int);
    if a <= b {
        s.subrange(a, b)
    } else {
        Seq::empty()
    }
}

/// Double quotes replaced by single quotes, so a footnote body can stand in
/// an attribute value.
pub open spec fn quote_escape(s: Seq<char>) -> Seq<char> {
    Seq::new(
        s.len(),
        |i: int|
            if s[i] == '"' {
                '\''
            } else {
                s[i]
            },
    )
}

/// The annotation element a resolved footnote reference becomes.
pub open spec fn note_span(body: Seq<char>) -> Seq<char> {
    "<span class=\"note\" note-type=\"footnote\" note-content=\""@ + quote_escape(body)
        + "\">F</span>"@
}

/// The number text inside a reference anchor's `sup` child, when the anchor
/// has that shape.
pub open spec fn sup_number(e: HtmlElement) -> Option<Seq<char>> {
    if e.children@.len() > 0 {
        match e.children@[0] {
            HtmlNode::Element(sup) => if sup.name@ == "sup"@ && sup.children@.len() > 0 {
                match sup.children@[0] {
                    HtmlNode::Text(num) => Some(num@),
                    _ => None,
                }
            } else {
                None
            },
            _ => None,
        }
    } else {
        None
    }
}

/// The footnote identity a reference anchor points to: an anchor with the
/// footnote-reference role whose `sup` child holds the number `N` points to
/// identity `fnN`.
pub open spec fn noteref_key(e: HtmlElement) -> Option<Seq<char>> {
    if e.name@ == "a"@ && attr_first(e.attributes@, "role"@) == Some(Some("doc-noteref"@)) {
        match sup_number(e) {
            Option::Some(num) => Some("fn"@ + trim_view(num)),
            Option::None => None,
        }
    } else {
        None
    }
}

/// The anchor carries the backlink role (such anchors are elided from
/// footnote bodies).
pub open spec fn backlink_role(e: HtmlElement) -> bool {
    attr_first(e.attributes@, "role"@) == Some(Some("doc-backlink"@))
}

/// Serialized inline markup of the first `j` nodes.  When `resolve` holds,
/// footnote-reference anchors found in `f` become annotation elements.
pub open spec fn inline_upto(
    s: Seq<HtmlNode>,
    f: Map<Seq<char>, Seq<char>>,
    resolve: bool,
    j: int,
) -> Seq<char>
    decreases s, j,
    when 0 <= j <= s.len()
{
    if j <= 0 {
        Seq::empty()
    } else {
        inline_upto(s, f, resolve, j - 1) + inline_node(s[j - 1], f, resolve)
    }
}

/// Serialized inline markup of one node.
pub open spec fn inline_node(n: HtmlNode, f: Map<Seq<char>, Seq<char>>, resolve: bool) -> Seq<char>
    decreases n, 0int,
{
    match n {
        HtmlNode::Text(t) => t@,
        HtmlNode::Comment(_) => Seq::empty(),
        HtmlNode::Element(e) => {
            if resolve && (match noteref_key(e) {
                Option::Some(k) => f.contains_key(k),
                Option::None => false,
            }) {
                note_span(f[noteref_key(e).unwrap()])
            } else {
                "<"@ + e.name@ + attrs_string(e.attributes@) + ">"@ + inline_upto(
                    e.children@,
                    f,
                    resolve,
                    e.children@.len() as int,
                ) + "</"@ + e.name@ + ">"@
            }
        },
    }
}

/// Serialized inline markup of an element's children.
pub open spec fn inline_children_of(
    e: HtmlElement,
    f: Map<Seq<char>, Seq<char>>,
    resolve: bool,
) -> Seq<char> {
    inline_upto(e.children@, f, resolve, e.children@.len() as int)
}

/// Rendered body text contributed by the first `j` nodes of a footnote list
/// item's leading paragraph: text is kept, backlink anchors are elided, other
/// anchors keep their attributes, and any other element is serialized with
/// its attributes stripped.
pub open spec fn fn_body_upto(s: Seq<HtmlNode>, j: int) -> Seq<char>
    decreases j,
    when 0 <= j <= s.len()
{
    if j <= 0 {
        Seq::empty()
    } else {
        fn_body_upto(s, j - 1) + (match s[j - 1] {
            HtmlNode::Text(t) => t@,
            HtmlNode::Comment(_) => Seq::empty(),
            HtmlNode::Element(e) => if lower_eq(e.name@, "a"@) {
                if backlink_role(e) {
                    Seq::empty()
                } else {
                    "<a "@ + attrs_string(e.attributes@) + ">"@ + inline_children_of(
                        e,
                        Map::empty(),
                        false,
                    ) + "</a>"@
                }
            } else {
                "<"@ + e.name@ + ">"@ + inline_children_of(e, Map::empty(), false) + "</"@ + e.name@
                    + ">"@
            },
        })
    }
}

/// Rendered body of one footnote list item: its first child, a paragraph,
/// contributes its pieces; a bare text first child is the body itself.
pub open spec fn fn_body(li: HtmlElement) -> Seq<char> {
    if li.children@.len() == 0 {
        Seq::empty()
    } else {
        match li.children@[0] {
            HtmlNode::Element(ptag) => fn_body_upto(ptag.children@, ptag.children@.len() as int),
            HtmlNode::Text(t) => t@,
            HtmlNode::Comment(_) => Seq::empty(),
        }
    }
}

/// The footnote lookup collected from the first `j` list items: each item
/// element carrying an identity maps it to the item's rendered body, later
/// items winning on a repeated identity.
pub open spec fn collect_items_upto(items: Seq<HtmlNode>, j: int) -> Map<Seq<char>, Seq<char>>
    decreases j,
    when 0 <= j <= items.len()
{
    if j <= 0 {
        Map::empty()
    } else {
        let m = collect_items_upto(items, j - 1);
        match items[j - 1] {
            HtmlNode::Element(li) => match li.id {
                Option::Some(id) => m.insert(id@, fn_body(li)),
                Option::None => m,
            },
            _ => m,
        }
    }
}

/// The first element named `name` among the nodes from `i` on.
pub open spec fn first_elem_named_from(s: Seq<HtmlNode>, name: Seq<char>, i: int) -> Option<
    HtmlElement,
>
    decreases s.len() - i,
    when 0 <= i <= s.len()
{
    if i >= s.len() {
        None
    } else {
        match s[i] {
            HtmlNode::Element(e) => if e.name@ == name {
                Some(e)
            } else {
                first_elem_named_from(s, name, i + 1)
            },
            _ => first_elem_named_from(s, name, i + 1),
        }
    }
}

/// The footnote lookup of a fragment: the first aside element, provided it
/// carries the reserved footnotes identity, contributes the items of its
/// first ordered list; anything else yields an empty lookup.
pub open spec fn footnote_table(nodes: Seq<HtmlNode>) -> Map<Seq<char>, Seq<char>> {
    match first_elem_named_from(nodes, "aside"@, 0) {
        Option::None => Map::empty(),
        Option::Some(aside) => {
            if aside.id matches Some(id) && id@ == "footnotes"@ {
                match first_elem_named_from(aside.children@, "ol"@, 0) {
                    Option::Some(ol) => collect_items_upto(
                        ol.children@,
                        ol.children@.len() as int,
                    ),
                    Option::None => Map::empty(),
                }
            } else {
                Map::empty()
            }
        },
    }
}

/// The heading level a tag name selects.
pub open spec fn heading_level(name: Seq<char>) -> u8 {
    if lower_eq(name, "h1"@) {
        1
    } else if lower_eq(name, "h2"@) {
        2
    } else if lower_eq(name, "h3"@) {
        3
    } else if lower_eq(name, "h4"@) {
        4
    } else if lower_eq(name, "h5"@) {
        5
    } else if lower_eq(name, "h6"@) {
        6
    } else {
        0
    }
}

/// The rendered list items among the first `j` children of a list element.
pub open spec fn list_items_upto(
    s: Seq<HtmlNode>,
    f: Map<Seq<char>, Seq<char>>,
    j: int,
) -> Seq<Seq<char>>
    decreases j,
    when 0 <= j <= s.len()
{
    if j <= 0 {
        Seq::empty()
    } else {
        let rest = list_items_upto(s, f, j - 1);
        match s[j - 1] {
            HtmlNode::Element(li) => if lower_eq(li.name@, "li"@) {
                rest.push(inline_children_of(li, f, true))
            } else {
                rest
            },
            _ => rest,
        }
    }
}

/// The content block one element transcribes to, or nothing for an aside
/// (the footnotes aside was already consumed for the lookup).
pub open spec fn block_of_element(e: HtmlElement, f: Map<Seq<char>, Seq<char>>) -> Option<
    BlockDataModel,
> {
    let inner = inline_children_of(e, f, true);
    if heading_level(e.name@) != 0 {
        Some(BlockDataModel::Heading { text: inner, level: heading_level(e.name@) })
    } else if lower_eq(e.name@, "p"@) {
        Some(BlockDataModel::Paragraph { text: inner })
    } else if lower_eq(e.name@, "ul"@) || lower_eq(e.name@, "ol"@) {
        Some(
            BlockDataModel::List {
                style: if lower_eq(e.name@, "ul"@) {
                    "unordered"@
                } else {
                    "ordered"@
                },
                items: list_items_upto(e.children@, f, e.children@.len() as int),
            },
        )
    } else if lower_eq(e.name@, "blockquote"@) {
        Some(
            BlockDataModel::Quote {
                text: inner,
                caption: Seq::empty(),
                alignment: Seq::empty(),
            },
        )
    } else if lower_eq(e.name@, "aside"@) {
        None
    } else {
        Some(BlockDataModel::Paragraph { text: inner })
    }
}

/// The content blocks the first `j` top-level nodes transcribe to: bare text
/// becomes a paragraph, elements follow `block_of_element`, comments are
/// skipped.
pub open spec fn transcribe_upto(
    s: Seq<HtmlNode>,
    f: Map<Seq<char>, Seq<char>>,
    j: int,
) -> Seq<BlockDataModel>
    decreases j,
    when 0 <= j <= s.len()
{
    if j <= 0 {
        Seq::empty()
    } else {
        let rest = transcribe_upto(s, f, j - 1);
        match s[j - 1] {
            HtmlNode::Text(t) => rest.push(BlockDataModel::Paragraph { text: t@ }),
            HtmlNode::Element(e) => match block_of_element(e, f) {
                Option::Some(b) => rest.push(b),
                Option::None => rest,
            },
            HtmlNode::Comment(_) => rest,
        }
    }
}

/// What transcribing a whole fragment produces: its nodes transcribed against
/// its own footnote lookup.
pub open spec fn fragment_blocks(nodes: Seq<HtmlNode>) -> Seq<BlockDataModel> {
    transcribe_upto(nodes, footnote_table(nodes), nodes.len() as int)
}

/// The footnote lookup under construction: insertion-ordered entries, later
/// insertions winning, viewed as a map from identity to rendered body.
pub struct Footnotes {
    pub entries: Vec<(String, String)>,
}

/// The map the first `j` entries denote.
pub open spec fn table_upto(s: Seq<(String, String)>, j: int) -> Map<Seq<char>, Seq<char>>
    decreases j,
    when 0 <= j <= s.len()
{
    if j <= 0 {
        Map::empty()
    } else {
        table_upto(s, j - 1).insert(s[j - 1].0@, s[j - 1].1@)
    }
}

impl View for Footnotes {
    type V = Map<Seq<char>, Seq<char>>;

    open spec fn view(&self) -> Map<Seq<char>, Seq<char>> {
        table_upto(self.entries@, self.entries@.len() as int)
    }
}

proof fn lemma_table_upto_prefix(s1: Seq<(String, String)>, s2: Seq<(String, String)>, j: int)
    requires
        0 <= j <= s1.len(),
        j <= s2.len(),
        forall|t: int| 0 <= t < j ==> s1[t] == s2[t],
    ensures
        table_upto(s1, j) == table_upto(s2, j),
    decreases j,
{
    if j > 0 {
        lemma_table_upto_prefix(s1, s2, j - 1);
    }
}

proof fn lemma_table_upto_absent(s: Seq<(String, String)>, j: int, k: Seq<char>)
    requires
        0 <= j <= s.len(),
        forall|t: int| 0 <= t < j ==> (#[trigger] s[t]).0@ != k,
    ensures
        !table_upto(s, j).contains_key(k),
    decreases j,
{
    if j > 0 {
        lemma_table_upto_absent(s, j - 1, k);
    }
}

proof fn lemma_table_upto_found(s: Seq<(String, String)>, j: int, i: int)
    requires
        0 <= i < j <= s.len(),
        forall|t: int| i < t < j ==> (#[trigger] s[t]).0@ != s[i].0@,
    ensures
        table_upto(s, j).contains_key(s[i].0@),
        table_upto(s, j)[s[i].0@] == s[i].1@,
    decreases j,
{
    if j - 1 > i {
        lemma_table_upto_found(s, j - 1, i);
    }
}

impl Footnotes {
    pub fn new() -> (r: Self)
        ensures
            r@ == Map::<Seq<char>, Seq<char>>::empty(),
    {
        Footnotes { entries: Vec::new() }
    }

    /// Records one footnote body under its identity; a repeated identity is
    /// overwritten.
    pub fn insert(&mut self, key: String, body: String)
        ensures
            final(self)@ == old(self)@.insert(key@, body@),
    {
        let ghost pre = self.entries@;
        self.entries.push((key, body));
        proof {
            lemma_table_upto_prefix(pre, self.entries@, pre.len() as int);
        }
    }

    /// Looks a footnote body up by identity.
    pub fn get(&self, key: &str) -> (r: Option<String>)
        ensures
            match r {
                Option::Some(b) => self@.contains_key(key@) && b@ == self@[key@],
                Option::None => !self@.contains_key(key@),
            },
    {
        let n = self.entries.len();
        let mut i: usize = n;
        while i > 0
            invariant
                i <= n,
                n == self.entries@.len(),
                forall|t: int| i <= t < n ==> (#[trigger] self.entries@[t]).0@ != key@,
            decreases i,
        {
            i = i - 1;
            if crate::text::str_eq_str(self.entries[i].0.as_str(), key) {
                proof {
                    lemma_table_upto_found(self.entries@, n as int, i as int);
                }
                return Some(self.entries[i].1.clone());
            }
        }
        proof {
            lemma_table_upto_absent(self.entries@, n as int, key@);
        }
        None
    }
}

/// `lit` (already lower case) equals the ASCII lowercasing of `s`.
pub fn eq_lower(s: &str, lit: &str) -> (r: bool)
    ensures
        r == lower_eq(s@, lit@),
{
    let n = s.unicode_len();
    let m = lit.unicode_len();
    if n != m {
        return false;
    }
    let mut i: usize = 0;
    while i < n
        invariant
            n == s@.len(),
            n == lit@.len(),
            i <= n,
            forall|j: int| 0 <= j < i ==> lower_match(s@[j], #[trigger] lit@[j]),
        decreases n - i,
    {
        let ca = s.get_char(i);
        let cb = lit.get_char(i);
        let folded = ca == cb || ('A' <= ca && ca <= 'Z' && ca as u32 + 32 == cb as u32);
        if !folded {
            assert(!lower_match(s@[i as int], lit@[i as int]));
            return false;
        }
        i = i + 1;
    }
    true
}

/// Whether the first attribute named `name` exists and carries exactly the
/// value `val`.
fn attr_is(attrs: &Vec<(String, Option<String>)>, name: &str, val: &str) -> (r: bool)
    ensures
        r == (attr_first(attrs@, name@) == Some(Some(val@))),
{
    let n = attrs.len();
    let mut i: usize = 0;
    while i < n
        invariant
            n == attrs@.len(),
            i <= n,
            attr_first_from(attrs@, name@, 0) == attr_first_from(attrs@, name@, i as int),
        decreases n - i,
    {
        if crate::text::str_eq_str(attrs[i].0.as_str(), name) {
            match &attrs[i].1 {
                Some(v) => {
                    return crate::text::str_eq_str(v.as_str(), val);
                },
                None => {
                    return false;
                },
            }
        }
        i = i + 1;
    }
    false
}

/// Strips leading and trailing whitespace.
fn trim_str(s: &str) -> (r: String)
    ensures
        r@ == trim_view(s@),
{
    let cs = crate::text::chars_of(s);
    let n = cs.len();
    let mut a: usize = 0;
    while a < n && (cs[a] == ' ' || cs[a] == '\t' || cs[a] == '\n' || cs[a] == '\r')
        invariant
            cs@ == s@,
            n == s@.len(),
            a <= n,
            trim_start_idx(s@, 0) == trim_start_idx(s@, a as int),
        decreases n - a,
    {
        a = a + 1;
    }
    let mut b: usize = n;
    while b > 0 && (cs[b - 1] == ' ' || cs[b - 1] == '\t' || cs[b - 1] == '\n' || cs[b - 1] == '\r')
        invariant
            cs@ == s@,
            b <= n,
            n == s@.len(),
            trim_end_idx(s@, n as int) == trim_end_idx(s@, b as int),
        decreases b,
    {
        b = b - 1;
    }
    assert(trim_start_idx(s@, 0) == a as int);
    assert(trim_end_idx(s@, n as int) == b as int);
    if a <= b {
        let piece = s.substring_char(a, b);
        piece.to_owned()
    } else {
        String::new()
    }
}

/// Replaces every double quote by a single quote.
fn replace_quotes(s: &str) -> (r: String)
    ensures
        r@ == quote_escape(s@),
{
    let cs = crate::text::chars_of(s);
    let n = cs.len();
    let mut out = String::new();
    let mut start: usize = 0;
    let mut i: usize = 0;
    proof {
        reveal_strlit("'");
    }
    while i < n
        invariant
            cs@ == s@,
            n == s@.len(),
            start <= i <= n,
            out@ =~= quote_escape(s@).subrange(0, start as int),
            forall|j: int| start <= j < i ==> s@[j] != '"',
        decreases n - i,
    {
        if cs[i] == '"' {
            let piece = s.substring_char(start, i);
            out.append(piece);
            out.append("'");
            proof {
                reveal_strlit("'");
                assert("'"@ =~= seq!['\'']);
                assert(out@ =~= quote_escape(s@).subrange(0, i + 1));
            }
            start = i + 1;
        }
        i = i + 1;
    }
    let piece = s.substring_char(start, n);
    out.append(piece);
    proof {
        assert(out@ =~= quote_escape(s@));
    }
    out
}

/// The footnote lookup an optional table stands for: absent means empty and
/// no resolution.
pub open spec fn opt_table(f: Option<&Footnotes>) -> Map<Seq<char>, Seq<char>> {
    match f {
        Option::Some(t) => t@,
        Option::None => Map::empty(),
    }
}

/// Serializes one attribute list.
fn attrs_string_exec(attrs: &Vec<(String, Option<String>)>) -> (r: String)
    ensures
        r@ == attrs_string(attrs@),
{
    let n = attrs.len();
    let mut out = String::new();
    let mut j: usize = 0;
    while j < n
        invariant
            n == attrs@.len(),
            j <= n,
            out@ == attrs_string(attrs@.subrange(0, j as int)),
        decreases n - j,
    {
        let ghost prefix = attrs@.subrange(0, j as int);
        out.append(" ");
        out.append(attrs[j].0.as_str());
        match &attrs[j].1 {
            Some(v) => {
                out.append("=\"");
                out.append(v.as_str());
                out.append("\"");
            },
            None => {},
        }
        proof {
            let prefix2 = attrs@.subrange(0, j + 1);
            assert(prefix2.drop_last() =~= prefix);
            assert(prefix2.last() == attrs@[j as int]);
            assert(out@ =~= attrs_string(prefix) + attr_one(attrs@[j as int]));
        }
        j = j + 1;
    }
    proof {
        assert(attrs@.subrange(0, n as int) =~= attrs@);
    }
    out
}

/// Serializes the inline markup of one node; see `inline_node`.
#[verifier::loop_isolation(false)]
pub fn inline_node_exec(n: &HtmlNode, f: Option<&Footnotes>) -> (r: String)
    ensures
        r@ == inline_node(*n, opt_table(f), f is Some),
    decreases *n,
{
    match n {
        HtmlNode::Text(t) => t.clone(),
        HtmlNode::Comment(_) => String::new(),
        HtmlNode::Element(e) => {
            if let Some(table) = f {
                if let Some(body) = noteref_lookup(e, table) {
                    let mut out = String::from_str(
                        "<span class=\"note\" note-type=\"footnote\" note-content=\"",
                    );
                    let escaped = replace_quotes(body.as_str());
                    out.append(escaped.as_str());
                    out.append("\">F</span>");
                    proof {
                        assert(out@ =~= note_span(opt_table(f)[noteref_key(*e).unwrap()]));
                    }
                    return out;
                }
            }
            let mut out = String::from_str("<");
            out.append(e.name.as_str());
            let attrs = attrs_string_exec(&e.attributes);
            out.append(attrs.as_str());
            out.append(">");
            proof {
                assert(decreases_to!(*n => *e));
                assert(decreases_to!(*e => e.children));
            }
            let inner = inline_children_exec(&e.children, f);
            out.append(inner.as_str());
            out.append("</");
            out.append(e.name.as_str());
            out.append(">");
            proof {
                assert(out@ =~= "<"@ + e.name@ + attrs_string(e.attributes@) + ">"@ + inline_upto(
                    e.children@,
                    opt_table(f),
                    f is Some,
                    e.children@.len() as int,
                ) + "</"@ + e.name@ + ">"@);
            }
            out
        },
    }
}

/// Serializes the inline markup of a node list; see `inline_upto`.
#[verifier::loop_isolation(false)]
pub fn inline_children_exec(nodes: &Vec<HtmlNode>, f: Option<&Footnotes>) -> (r: String)
    ensures
        r@ == inline_upto(nodes@, opt_table(f), f is Some, nodes@.len() as int),
    decreases nodes@,
{
    let n = nodes.len();
    let mut out = String::new();
    let mut i: usize = 0;
    while i < n
        invariant
            i <= n,
            out@ == inline_upto(nodes@, opt_table(f), f is Some, i as int),
        decreases n - i,
    {
        proof {
            broadcast use vstd::std_specs::vec::axiom_vec_index_decreases;

            assert(decreases_to!(nodes@ => nodes@[i as int]));
        }
        let piece = inline_node_exec(&nodes[i], f);
        out.append(piece.as_str());
        i = i + 1;
    }
    out
}

/// Resolves a footnote-reference anchor against the lookup: reports the
/// rendered body the anchor points to, when the anchor has the reference
/// shape and its identity is known.
fn noteref_lookup(e: &HtmlElement, table: &Footnotes) -> (r: Option<String>)
    ensures
        match r {
            Option::Some(b) => {
                &&& noteref_key(*e) is Some
                &&& table@.contains_key(noteref_key(*e).unwrap())
                &&& b@ == table@[noteref_key(*e).unwrap()]
            },
            Option::None => noteref_key(*e) is None || !table@.contains_key(
                noteref_key(*e).unwrap(),
            ),
        },
{
    if !crate::text::str_eq_str(e.name.as_str(), "a") {
        return None;
    }
    if !attr_is(&e.attributes, "role", "doc-noteref") {
        return None;
    }
    if e.children.len() == 0 {
        return None;
    }
    match &e.children[0] {
        HtmlNode::Element(sup) => {
            if !crate::text::str_eq_str(sup.name.as_str(), "sup") {
                return None;
            }
            if sup.children.len() == 0 {
                return None;
            }
            match &sup.children[0] {
                HtmlNode::Text(num) => {
                    let trimmed = trim_str(num.as_str());
                    let key = String::from_str("fn").concat(trimmed.as_str());
                    assert(key@ == "fn"@ + trim_view(num@));
                    table.get(key.as_str())
                },
                _ => None,
            }
        },
        _ => None,
    }
}

/// Renders the body pieces of a footnote list item's leading paragraph; see
/// `fn_body_upto`.
fn fn_body_parts_exec(nodes: &Vec<HtmlNode>) -> (r: String)
    ensures
        r@ == fn_body_upto(nodes@, nodes@.len() as int),
{
    let n = nodes.len();
    let mut out = String::new();
    let mut j: usize = 0;
    while j < n
        invariant
            n == nodes@.len(),
            j <= n,
            out@ == fn_body_upto(nodes@, j as int),
        decreases n - j,
    {
        let ghost pre = out@;
        match &nodes[j] {
            HtmlNode::Text(t) => {
                out.append(t.as_str());
            },
            HtmlNode::Comment(_) => {},
            HtmlNode::Element(e) => {
                if eq_lower(e.name.as_str(), "a") {
                    if !attr_is(&e.attributes, "role", "doc-backlink") {
                        out.append("<a ");
                        let attrs = attrs_string_exec(&e.attributes);
                        out.append(attrs.as_str());
                        out.append(">");
                        let inner = inline_children_exec(&e.children, None);
                        out.append(inner.as_str());
                        out.append("</a>");
                        proof {
                            assert(out@ =~= pre + ("<a "@ + attrs_string(e.attributes@) + ">"@
                                + inline_children_of(*e, Map::empty(), false) + "</a>"@));
                        }
                    }
                } else {
                    out.append("<");
                    out.append(e.name.as_str());
                    out.append(">");
                    let inner = inline_children_exec(&e.children, None);
                    out.append(inner.as_str());
                    out.append("</");
                    out.append(e.name.as_str());
                    out.append(">");
                    proof {
                        assert(out@ =~= pre + ("<"@ + e.name@ + ">"@ + inline_children_of(
                            *e,
                            Map::empty(),
                            false,
                        ) + "</"@ + e.name@ + ">"@));
                    }
                }
            },
        }
        j = j + 1;
    }
    out
}

/// Renders the body of one footnote list item; see `fn_body`.
fn fn_body_exec(li: &HtmlElement) -> (r: String)
    ensures
        r@ == fn_body(*li),
{
    if li.children.len() == 0 {
        return String::new();
    }
    match &li.children[0] {
        HtmlNode::Element(ptag) => fn_body_parts_exec(&ptag.children),
        HtmlNode::Text(t) => t.clone(),
        HtmlNode::Comment(_) => String::new(),
    }
}

/// Finds the first element with exactly this tag name.
fn first_elem_named<'a>(nodes: &'a Vec<HtmlNode>, name: &str) -> (r: Option<&'a HtmlElement>)
    ensures
        match r {
            Option::Some(e) => first_elem_named_from(nodes@, name@, 0) == Some(*e),
            Option::None => first_elem_named_from(nodes@, name@, 0) is None,
        },
{
    let n = nodes.len();
    let mut i: usize = 0;
    while i < n
        invariant
            n == nodes@.len(),
            i <= n,
            first_elem_named_from(nodes@, name@, 0) == first_elem_named_from(
                nodes@,
                name@,
                i as int,
            ),
        decreases n - i,
    {
        match &nodes[i] {
            HtmlNode::Element(e) => {
                if crate::text::str_eq_str(e.name.as_str(), name) {
                    return Some(e);
                }
            },
            _ => {},
        }
        i = i + 1;
    }
    None
}

/// Builds the footnote lookup of a fragment; see `footnote_table`.
pub fn build_footnote_table(nodes: &Vec<HtmlNode>) -> (r: Footnotes)
    ensures
        r@ == footnote_table(nodes@),
{
    let aside = match first_elem_named(nodes, "aside") {
        Some(aside) => aside,
        None => {
            return Footnotes::new();
        },
    };
    let id_matches = match &aside.id {
        Some(id) => crate::text::str_eq_str(id.as_str(), "footnotes"),
        None => false,
    };
    if !id_matches {
        return Footnotes::new();
    }
    let ol = match first_elem_named(&aside.children, "ol") {
        Some(ol) => ol,
        None => {
            return Footnotes::new();
        },
    };
    let items = &ol.children;
    let n = items.len();
    let mut table = Footnotes::new();
    let mut j: usize = 0;
    while j < n
        invariant
            n == items@.len(),
            j <= n,
            table@ == collect_items_upto(items@, j as int),
        decreases n - j,
    {
        match &items[j] {
            HtmlNode::Element(li) => {
                match &li.id {
                    Some(id) => {
                        let body = fn_body_exec(li);
                        table.insert(id.clone(), body);
                    },
                    None => {},
                }
            },
            _ => {},
        }
        j = j + 1;
    }
    table
}

/// The heading level a tag name selects, or zero for a non-heading tag.
fn heading_level_exec(name: &str) -> (r: u8)
    ensures
        r == heading_level(name@),
{
    if eq_lower(name, "h1") {
        1
    } else if eq_lower(name, "h2") {
        2
    } else if eq_lower(name, "h3") {
        3
    } else if eq_lower(name, "h4") {
        4
    } else if eq_lower(name, "h5") {
        5
    } else if eq_lower(name, "h6") {
        6
    } else {
        0
    }
}

/// Collects the rendered list items of a list element; see `list_items_upto`.
fn list_items_exec(children: &Vec<HtmlNode>, table: &Footnotes) -> (r: Vec<String>)
    ensures
        crate::text::string_views(r@) == list_items_upto(children@, table@, children@.len() as int),
{
    let n = children.len();
    let mut items: Vec<String> = Vec::new();
    let mut j: usize = 0;
    while j < n
        invariant
            n == children@.len(),
            j <= n,
            crate::text::string_views(items@) == list_items_upto(children@, table@, j as int),
        decreases n - j,
    {
        let ghost pre = crate::text::string_views(items@);
        match &children[j] {
            HtmlNode::Element(li) => {
                if eq_lower(li.name.as_str(), "li") {
                    let rendered = inline_children_exec(&li.children, Some(table));
                    items.push(rendered);
                    proof {
                        assert(crate::text::string_views(items@) =~= pre.push(
                            inline_children_of(*li, table@, true),
                        ));
                    }
                }
            },
            _ => {},
        }
        j = j + 1;
    }
    items
}

/// Transcribes one element into a content block, or nothing for an aside;
/// see `block_of_element`.
fn block_of_element_exec(e: &HtmlElement, table: &Footnotes) -> (r: Option<BlockData>)
    ensures
        match r {
            Option::Some(b) => block_of_element(*e, table@) == Some(b@),
            Option::None => block_of_element(*e, table@) is None,
        },
{
    let level = heading_level_exec(e.name.as_str());
    if level != 0 {
        let text = inline_children_exec(&e.children, Some(table));
        return Some(BlockData::Heading { text, level });
    }
    if eq_lower(e.name.as_str(), "p") {
        let text = inline_children_exec(&e.children, Some(table));
        return Some(BlockData::Paragraph { text });
    }
    let is_ul = eq_lower(e.name.as_str(), "ul");
    if is_ul || eq_lower(e.name.as_str(), "ol") {
        let style = if is_ul {
            String::from_str("unordered")
        } else {
            String::from_str("ordered")
        };
        let items = list_items_exec(&e.children, table);
        return Some(BlockData::List { style, items });
    }
    if eq_lower(e.name.as_str(), "blockquote") {
        let text = inline_children_exec(&e.children, Some(table));
        return Some(
            BlockData::Quote { text, caption: String::new(), alignment: String::new() },
        );
    }
    if eq_lower(e.name.as_str(), "aside") {
        return None;
    }
    let text = inline_children_exec(&e.children, Some(table));
    Some(BlockData::Paragraph { text })
}

/// Transcribes a fragment's top-level nodes into typed content blocks,
/// resolving footnote references against the fragment's own footnote lookup.
pub fn transcribe_fragment(nodes: &Vec<HtmlNode>) -> (r: Vec<BlockData>)
    ensures
        crate::content::blocks_view(r@) == fragment_blocks(nodes@),
{
    let table = build_footnote_table(nodes);
    let n = nodes.len();
    let mut out: Vec<BlockData> = Vec::new();
    let mut j: usize = 0;
    while j < n
        invariant
            n == nodes@.len(),
            table@ == footnote_table(nodes@),
            j <= n,
            crate::content::blocks_view(out@) == transcribe_upto(nodes@, table@, j as int),
        decreases n - j,
    {
        let ghost pre = crate::content::blocks_view(out@);
        match &nodes[j] {
            HtmlNode::Text(t) => {
                out.push(BlockData::Paragraph { text: t.clone() });
                proof {
                    assert(crate::content::blocks_view(out@) =~= pre.push(
                        BlockDataModel::Paragraph { text: t@ },
                    ));
                }
            },
            HtmlNode::Element(e) => {
                match block_of_element_exec(e, &table) {
                    Some(b) => {
                        let ghost bm = b@;
                        out.push(b);
                        proof {
                            assert(crate::content::blocks_view(out@) =~= pre.push(bm));
                        }
                    },
                    None => {},
                }
            },
            HtmlNode::Comment(_) => {},
        }
        j = j + 1;
    }
    out
}

/// The identity one footnote list item carries, when it is an element with
/// one.
pub open spec fn item_identity(n: HtmlNode) -> Option<Seq<char>> {
    match n {
        HtmlNode::Element(li) => match li.id {
            Option::Some(id) => Some(id@),
            Option::None => None,
        },
        _ => None,
    }
}

/// Footnote resolution, collection side: among the footnote list items, the
/// last item carrying a given identity determines the body recorded under
/// it — that item's rendered body, with backlink anchors elided.
pub proof fn lemma_footnote_table_entry(items: Seq<HtmlNode>, j: int, i: int)
    requires
        0 <= i < j <= items.len(),
        item_identity(items[i]) is Some,
        forall|t: int| i < t < j ==> item_identity(#[trigger] items[t]) != item_identity(items[i]),
    ensures
        collect_items_upto(items, j).contains_key(item_identity(items[i]).unwrap()),
        collect_items_upto(items, j)[item_identity(items[i]).unwrap()] == fn_body(
            items[i]->Element_0,
        ),
    decreases j,
{
    if j - 1 > i {
        lemma_footnote_table_entry(items, j - 1, i);
    }
}

/// Footnote resolution, reference side: an anchor carrying the
/// footnote-reference role whose identity is recorded in the lookup is
/// replaced by the annotation element carrying the recorded body, quotes
/// escaped.
pub proof fn lemma_footnote_reference_resolved(e: HtmlElement, f: Map<Seq<char>, Seq<char>>)
    requires
        noteref_key(e) is Some,
        f.contains_key(noteref_key(e).unwrap()),
    ensures
        inline_node(HtmlNode::Element(e), f, true) == note_span(f[noteref_key(e).unwrap()]),
{
}

/// Whether the text parses as a self-contained HTML fragment: the parse
/// succeeds and yields a fragment tree rather than a whole document.  The
/// parse is deterministic, so this is a function of the text alone.
pub uninterp spec fn html_fragment_ok(s: Seq<char>) -> bool;

/// Relies on html_parser's Dom::parse: parses HTML into a node tree,
/// deterministically in the text.  A parse error, or a whole-document tree
/// (only fragment bodies are supported), is a conversion failure; of a
/// successful parse nothing further is assumed — in particular, attribute
/// order inside the nodes is arbitrary.
#[verifier::external_body]
pub(crate) fn parse_html_fragment(input: &str) -> (r: Result<
    Vec<HtmlNode>,
    crate::importing::ImportError,
>)
    ensures
        r is Ok <==> html_fragment_ok(input@),
        r matches Err(e) ==> e == crate::importing::ImportError::HtmlConversionFailed,
{
    match html_parser::Dom::parse(input) {
        Err(_) => Err(crate::importing::ImportError::HtmlConversionFailed),
        Ok(dom) => match dom.tree_type {
            html_parser::DomVariant::Document => Err(
                crate::importing::ImportError::HtmlConversionFailed,
            ),
            _ => Ok(dom.children.into_iter().map(convert_node).collect()),
        },
    }
}

/// html_parser's node type, opaque here: a parsed node is carried straight
/// into the fragment model.
#[verifier::external_type_specification]
#[verifier::external_body]
pub struct ExHtmlNode(html_parser::Node);

/// Carries one node of html_parser's tree into the fragment model, field for
/// field; the logic reads only name, identity, attributes and children.
#[verifier::external_body]
fn convert_node(n: html_parser::Node) -> HtmlNode {
    match n {
        html_parser::Node::Text(t) => HtmlNode::Text(t),
        html_parser::Node::Comment(c) => HtmlNode::Comment(c),
        html_parser::Node::Element(e) => HtmlNode::Element(
            HtmlElement {
                name: e.name,
                id: e.id,
                attributes: e.attributes.into_iter().collect(),
                children: e.children.into_iter().map(convert_node).collect(),
            },
        ),
    }
}

} // verus!
