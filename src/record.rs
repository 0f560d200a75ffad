use vstd::prelude::*;
use crate::json::{find_member, json_of, json_view, member, parse_json, Json, JsonView};

verus! {

/// A fragment of the reply, as one record carries it.
#[derive(Debug)]
pub struct Message {
    pub role: String,
    pub content: String,
}

/// One decoded line of the server's response stream.
#[derive(Debug)]
pub struct StreamRecord {
    pub message: Option<Message>,
    pub done: bool,
}

/// A record as values: whether it ends the turn, and its role and content delta if any.
pub type RecordView = (bool, Option<(Seq<char>, Seq<char>)>);

impl View for StreamRecord {
    type V = RecordView;

    open spec fn view(&self) -> RecordView {
        (
            self.done,
            match self.message {
                Some(m) => Some((m.role@, m.content@)),
                None => None,
            },
        )
    }
}

pub open spec fn option_record_view(r: Option<StreamRecord>) -> Option<RecordView> {
    match r {
        Some(rec) => Some(rec@),
        None => None,
    }
}

pub open spec fn fields_view(v: Seq<(String, Json)>) -> Seq<(Seq<char>, JsonView)> {
    v.map_values(|f: (String, Json)| (f.0@, f.1@))
}

/// The record that a JSON value stands for: an object whose `done` is a boolean,
/// and whose `message`, unless absent or null, is an object with string `role`
/// and `content`. Any other value is not a record.
pub open spec fn record_of_json(v: JsonView) -> Option<RecordView> {
    match v {
        JsonView::Object(fs) => match member(fs, "done"@) {
            Some(JsonView::Bool(done)) => match member(fs, "message"@) {
                None => Some((done, None)),
                Some(JsonView::Null) => Some((done, None)),
                Some(JsonView::Object(ms)) => match (member(ms, "role"@), member(ms, "content"@)) {
                    (Some(JsonView::Str(role)), Some(JsonView::Str(content))) => Some(
                        (done, Some((role, content))),
                    ),
                    _ => None,
                },
                _ => None,
            },
            _ => None,
        },
        _ => None,
    }
}

/// The record that one line holds, if it is a JSON document that is a record.
pub open spec fn line_record(line: Seq<char>) -> Option<RecordView> {
    match json_of(line) {
        Some(v) => record_of_json(v),
        None => None,
    }
}

proof fn lemma_object_view(fields: Vec<(String, Json)>)
    ensures
        Json::Object(fields)@ == JsonView::Object(fields_view(fields@)),
{
    let jv = json_view(Json::Object(fields));
    assert(jv->Object_0 =~= fields_view(fields@));
}

fn string_member(fields: &Vec<(String, Json)>, key: &str) -> (r: Option<String>)
    ensures
        match member(fields_view(fields@), key@) {
            Some(JsonView::Str(s)) => r is Some && r->Some_0@ == s,
            _ => r is None,
        },
{
    match find_member(fields, key) {
        Some(Json::Str(s)) => Some(s.clone()),
        _ => None,
    }
}

/// Reads a record out of a JSON value.
pub fn record_from_json(v: &Json) -> (r: Option<StreamRecord>)
    ensures
        option_record_view(r) == record_of_json(v@),
{
    match v {
        Json::Object(fields) => {
            proof {
                lemma_object_view(*fields);
            }
            let done = match find_member(fields, "done") {
                Some(Json::Bool(d)) => *d,
                _ => return None,
            };
            match find_member(fields, "message") {
                None => Some(StreamRecord { message: None, done }),
                Some(Json::Null) => Some(StreamRecord { message: None, done }),
                Some(Json::Object(ms)) => {
                    proof {
                        lemma_object_view(*ms);
                    }
                    let role = match string_member(ms, "role") {
                        Some(s) => s,
                        None => return None,
                    };
                    let content = match string_member(ms, "content") {
                        Some(s) => s,
                        None => return None,
                    };
                    Some(StreamRecord { message: Some(Message { role, content }), done })
                },
                _ => None,
            }
        },
        _ => None,
    }
}

/// Decodes one line; a line that is not a record gives `None`.
pub fn decode_line(line: &str) -> (r: Option<StreamRecord>)
    ensures
        option_record_view(r) == line_record(line@),
{
    match parse_json(line) {
        Some(v) => record_from_json(&v),
        None => None,
    }
}

/// The records that the lines decode to, in order; lines that are not records are skipped.
pub open spec fn decoded_records(lines: Seq<Seq<char>>) -> Seq<RecordView>
    decreases lines.len(),
{
    if lines.len() == 0 {
        seq![]
    } else {
        match line_record(lines.last()) {
            Some(r) => decoded_records(lines.drop_last()).push(r),
            None => decoded_records(lines.drop_last()),
        }
    }
}

pub open spec fn records_view(v: Seq<StreamRecord>) -> Seq<RecordView> {
    v.map_values(|r: StreamRecord| r@)
}

/// Decodes every line, keeping the records in order and dropping the lines that are not records.
pub fn decode_lines(lines: &Vec<String>) -> (r: Vec<StreamRecord>)
    ensures
        records_view(r@) == decoded_records(lines@.map_values(|s: String| s@)),
{
    let ghost ls = lines@.map_values(|s: String| s@);
    let mut r: Vec<StreamRecord> = Vec::new();
    let mut i: usize = 0;
    while i < lines.len()
        invariant
            0 <= i <= lines@.len(),
            ls == lines@.map_values(|s: String| s@),
            records_view(r@) == decoded_records(ls.take(i as int)),
        decreases lines@.len() - i,
    {
        proof {
            assert(ls.take(i as int + 1).drop_last() =~= ls.take(i as int));
        }
        match decode_line(lines[i].as_str()) {
            Some(rec) => {
                let ghost before = r@;
                r.push(rec);
                proof {
                    assert(records_view(r@) =~= records_view(before).push(rec@));
                }
            },
            None => {},
        }
        i = i + 1;
    }
    proof {
        assert(ls.take(i as int) =~= ls);
    }
    r
}

pub proof fn lemma_decoded_records_concat(a: Seq<Seq<char>>, b: Seq<Seq<char>>)
    ensures
        decoded_records(a + b) == decoded_records(a) + decoded_records(b),
    decreases b.len(),
{
    if b.len() == 0 {
        assert(a + b =~= a);
        assert(decoded_records(a) + seq![] =~= decoded_records(a));
    } else {
        assert((a + b).drop_last() =~= a + b.drop_last());
        lemma_decoded_records_concat(a, b.drop_last());
        match line_record(b.last()) {
            Some(r) => {
                assert((decoded_records(a) + decoded_records(b.drop_last())).push(r)
                    =~= decoded_records(a) + decoded_records(b.drop_last()).push(r));
            },
            None => {},
        }
    }
}

} // verus!
