//! Retrieved results: defaults for missing payload fields, deduplication by
//! content, and the text blocks a prompt is built from.
use vstd::prelude::*;

verus! {

#[verifier::external_type_specification]
#[verifier::external_body]
pub struct ExValue(serde_json::Value);

/// One result of a vector search.
#[derive(Debug)]
pub struct ResultChunk {
    pub id: String,
    pub doc_id: String,
    pub doc_seq_num: i32,
    pub content: String,
    pub additional_data: serde_json::Value,
    pub doc_summary: String,
    /// The similarity score, as the bit pattern of an `f32`.
    pub score_bits: u32,
}

/// Relies on `serde_json::Value::Null`: the JSON null value.
#[verifier::external_body]
fn json_null() -> serde_json::Value {
    serde_json::Value::Null
}

/// Relies on `serde_json::Value::as_array`: the items of an array value, and
/// nothing for any other value.
#[verifier::external_body]
fn json_array<'a>(v: &'a serde_json::Value) -> Option<&'a Vec<serde_json::Value>> {
    v.as_array()
}

/// Relies on `serde_json::Value`'s `Display`: the value written as compact JSON.
#[verifier::external_body]
fn json_text(v: &serde_json::Value) -> String {
    v.to_string()
}

/// The JSON text of the item at index 1 of an array value that has one.
fn second_item_json(v: &serde_json::Value) -> Option<String> {
    match json_array(v) {
        Some(items) => {
            if items.len() >= 2 {
                Some(json_text(&items[1]))
            } else {
                None
            }
        },
        None => None,
    }
}

/// The text that stands for a missing string field.
pub open spec fn or_default(v: Option<String>, d: Seq<char>) -> Seq<char> {
    match v {
        Some(s) => s@,
        None => d,
    }
}

fn string_or(v: Option<String>, d: &str) -> (r: String)
    ensures
        r@ == or_default(v, d@),
{
    match v {
        Some(s) => s,
        None => String::from_str(d),
    }
}

impl ResultChunk {
    /// Builds a result from the fields a search returned, each of which may be
    /// missing: a missing id or document id becomes "Unknown", a missing sequence
    /// number -1, a missing content or summary the empty string, and missing
    /// additional data JSON null. The sequence number is kept in 32 bits.
    pub fn from_fields(
        id: Option<String>,
        doc_id: Option<String>,
        doc_seq_num: Option<i64>,
        content: Option<String>,
        additional_data: Option<serde_json::Value>,
        doc_summary: Option<String>,
        score_bits: u32,
    ) -> (r: ResultChunk)
        ensures
            r.id@ == or_default(id, "Unknown"@),
            r.doc_id@ == or_default(doc_id, "Unknown"@),
            r.doc_seq_num == match doc_seq_num {
                Some(n) => n as i32,
                None => -1i32,
            },
            r.content@ == or_default(content, Seq::empty()),
            additional_data matches Some(d) ==> r.additional_data == d,
            r.doc_summary@ == or_default(doc_summary, Seq::empty()),
            r.score_bits == score_bits,
    {
        proof {
            reveal_strlit("");
        }
        let additional_data = match additional_data {
            Some(d) => d,
            None => json_null(),
        };
        ResultChunk {
            id: string_or(id, "Unknown"),
            doc_id: string_or(doc_id, "Unknown"),
            doc_seq_num: match doc_seq_num {
                Some(n) => n as i32,
                None => -1,
            },
            content: string_or(content, ""),
            additional_data,
            doc_summary: string_or(doc_summary, ""),
            score_bits,
        }
    }

    /// The block that presents this result in a prompt; the link line holds the
    /// JSON text of the second item of the additional data, where that is an
    /// array with such an item.
    pub fn to_prompt_chunk(&self) -> (r: String)
        ensures
            exists|link: Option<Seq<char>>|
                r@ == prompt_block(self.doc_summary@, link, self.content@),
    {
        let link = second_item_json(&self.additional_data);
        match link {
            Some(l) => render_prompt_chunk(&self.doc_summary, Some(l.as_str()), &self.content),
            None => render_prompt_chunk(&self.doc_summary, None, &self.content),
        }
    }
}

/// The block that presents one result in a prompt: the parent document's
/// summary, a line with the additional data where there is some, and the content.
pub open spec fn prompt_block(summary: Seq<char>, link: Option<Seq<char>>, content: Seq<char>) -> Seq<
    char,
> {
    let link_line = match link {
        Some(l) => "\tPARENT DOCUMENT ADDITIONAL DATA: "@ + l,
        None => Seq::empty(),
    };
    "CHUNK:\n\tPARENT DOCUMENT DESCRIPTION:\n"@ + summary + "\n"@ + link_line + "\n\n\tCHUNK CONTENTS: "@
        + content
}

/// Renders the prompt block of one result.
pub fn render_prompt_chunk(doc_summary: &str, link: Option<&str>, content: &str) -> (r: String)
    ensures
        r@ == prompt_block(
            doc_summary@,
            match link {
                Some(l) => Some(l@),
                None => None,
            },
            content@,
        ),
{
    let mut r = String::from_str("CHUNK:\n\tPARENT DOCUMENT DESCRIPTION:\n");
    r.append(doc_summary);
    r.append("\n");
    match link {
        Some(l) => {
            r.append("\tPARENT DOCUMENT ADDITIONAL DATA: ");
            r.append(l);
        },
        None => {},
    }
    r.append("\n\n\tCHUNK CONTENTS: ");
    r.append(content);
    proof {
        let link_line = match link {
            Some(l) => "\tPARENT DOCUMENT ADDITIONAL DATA: "@ + l@,
            None => Seq::empty(),
        };
        assert(r@ =~= "CHUNK:\n\tPARENT DOCUMENT DESCRIPTION:\n"@ + doc_summary@ + "\n"@ + link_line
            + "\n\n\tCHUNK CONTENTS: "@ + content@);
    }
    r
}

/// The results of `s` whose content no earlier result of `s` has, in order.
pub open spec fn first_occurrences(s: Seq<ResultChunk>) -> Seq<ResultChunk>
    decreases s.len(),
{
    if s.len() == 0 {
        Seq::empty()
    } else {
        let p = first_occurrences(s.drop_last());
        if exists|j: int| 0 <= j < s.len() - 1 && s[j].content@ == s.last().content@ {
            p
        } else {
            p.push(s.last())
        }
    }
}

/// Whether an earlier result than the one at `i` has the same content.
fn seen_before(results: &Vec<ResultChunk>, i: usize) -> (r: bool)
    requires
        i < results@.len(),
    ensures
        r == exists|j: int| 0 <= j < i && results@[j].content@ == results@[i as int].content@,
{
    let mut j: usize = 0;
    while j < i
        invariant
            j <= i < results@.len(),
            forall|k: int| 0 <= k < j ==> results@[k].content@ != results@[i as int].content@,
        decreases i - j,
    {
        if results[j].content == results[i].content {
            return true;
        }
        j = j + 1;
    }
    false
}

/// Removes every result whose content an earlier result already has; the
/// survivors keep the order in which the store ranked them.
pub fn dedup(results: Vec<ResultChunk>) -> (r: Vec<ResultChunk>)
    ensures
        r@ == first_occurrences(results@),
{
    let ghost orig = results@;
    let n = results.len();
    let mut keep: Vec<bool> = Vec::new();
    let mut i: usize = 0;
    while i < n
        invariant
            i <= n == results@.len(),
            keep@.len() == i,
            forall|k: int|
                0 <= k < i ==> #[trigger] keep@[k] == !exists|j: int|
                    0 <= j < k && results@[j].content@ == results@[k].content@,
        decreases n - i,
    {
        let seen = seen_before(&results, i);
        keep.push(!seen);
        i = i + 1;
    }
    let mut rest = results;
    let mut out: Vec<ResultChunk> = Vec::new();
    let mut i: usize = 0;
    assert(orig.take(0) =~= Seq::<ResultChunk>::empty());
    assert(orig.skip(0) =~= orig);
    while i < n
        invariant
            i <= n == orig.len() == keep@.len(),
            rest@ == orig.skip(i as int),
            out@ == first_occurrences(orig.take(i as int)),
            forall|k: int|
                0 <= k < n ==> #[trigger] keep@[k] == !exists|j: int|
                    0 <= j < k && orig[j].content@ == orig[k].content@,
        decreases n - i,
    {
        let item = rest.remove(0);
        proof {
            let t = orig.take(i + 1);
            assert(t.drop_last() =~= orig.take(i as int));
            assert(item == orig[i as int]);
            assert(rest@ =~= orig.skip(i + 1));
            assert((exists|j: int| 0 <= j < t.len() - 1 && t[j].content@ == t.last().content@)
                == (exists|j: int| 0 <= j < i && orig[j].content@ == orig[i as int].content@)) by {
                if exists|j: int| 0 <= j < i && orig[j].content@ == orig[i as int].content@ {
                    let j = choose|j: int| 0 <= j < i && orig[j].content@ == orig[i as int].content@;
                    assert(t[j] == orig[j]);
                }
            }
        }
        if keep[i] {
            out.push(item);
        }
        i = i + 1;
    }
    assert(orig.take(n as int) =~= orig);
    out
}

/// Some result of `s` is `x`.
pub open spec fn is_member(s: Seq<ResultChunk>, x: ResultChunk) -> bool {
    exists|j: int| 0 <= j < s.len() && s[j] == x
}

/// Some result of `s` has content `c`.
pub open spec fn has_content(s: Seq<ResultChunk>, c: Seq<char>) -> bool {
    exists|k: int| 0 <= k < s.len() && s[k].content@ == c
}

/// No two results of `s` share their content.
pub open spec fn distinct_contents(s: Seq<ResultChunk>) -> bool {
    forall|a: int, b: int| 0 <= a < b < s.len() ==> s[a].content@ != s[b].content@
}

/// Deduplication keeps a subset of its input: every result it returns is one
/// of the input's results; no two results it returns share their content; and
/// every content of the input is still present.
pub proof fn lemma_dedup_subset_unique(s: Seq<ResultChunk>)
    ensures
        forall|k: int|
            0 <= k < first_occurrences(s).len() ==> is_member(s, #[trigger] first_occurrences(s)[k]),
        distinct_contents(first_occurrences(s)),
        forall|j: int| 0 <= j < s.len() ==> has_content(first_occurrences(s), #[trigger] s[j].content@),
    decreases s.len(),
{
    if s.len() > 0 {
        let d = s.drop_last();
        lemma_dedup_subset_unique(d);
        let p = first_occurrences(d);
        let r = first_occurrences(s);
        let last = s.last();
        let dup = exists|j: int| 0 <= j < s.len() - 1 && s[j].content@ == last.content@;
        assert(dup == has_content(d, last.content@)) by {
            if dup {
                let j = choose|j: int| 0 <= j < s.len() - 1 && s[j].content@ == last.content@;
                assert(d[j] == s[j]);
            }
            if has_content(d, last.content@) {
                let j = choose|j: int| 0 <= j < d.len() && d[j].content@ == last.content@;
                assert(d[j] == s[j]);
            }
        }
        assert forall|x: ResultChunk| is_member(d, x) implies is_member(s, x) by {
            let j = choose|j: int| 0 <= j < d.len() && d[j] == x;
            assert(s[j] == d[j]);
        }
        if dup {
            assert(r == p);
            assert forall|j: int| 0 <= j < s.len() implies has_content(r, #[trigger] s[j].content@) by {
                if j < s.len() - 1 {
                    assert(s[j] == d[j]);
                } else {
                    let j0 = choose|j: int| 0 <= j < d.len() && d[j].content@ == last.content@;
                    assert(has_content(p, d[j0].content@));
                }
            }
        } else {
            assert(r == p.push(last));
            assert forall|k: int| 0 <= k < r.len() implies is_member(s, #[trigger] r[k]) by {
                if k < p.len() {
                    assert(r[k] == p[k]);
                    assert(is_member(d, p[k]));
                } else {
                    assert(s[s.len() - 1] == r[k]);
                }
            }
            assert forall|a: int, b: int| 0 <= a < b < r.len() implies r[a].content@
                != r[b].content@ by {
                assert(r[a] == p[a]);
                if b == r.len() - 1 {
                    assert(is_member(d, p[a]));
                    let j = choose|j: int| 0 <= j < d.len() && d[j] == p[a];
                    assert(d[j].content@ == p[a].content@);
                } else {
                    assert(r[b] == p[b]);
                }
            }
            assert forall|j: int| 0 <= j < s.len() implies has_content(r, #[trigger] s[j].content@) by {
                if j < s.len() - 1 {
                    assert(s[j] == d[j]);
                    assert(has_content(p, d[j].content@));
                    let k = choose|k: int| 0 <= k < p.len() && p[k].content@ == d[j].content@;
                    assert(r[k] == p[k]);
                } else {
                    assert(r[r.len() - 1] == s[j]);
                }
            }
        }
    }
}

} // verus!
