use vstd::prelude::*;
use crate::models::header_index;

verus! {

/// A JSON document. A number is kept as the bit pattern of its binary64
/// value; a string also carries the number that its text reads as (the bit
/// pattern of the binary64 value that Rust's `str::parse::<f64>` gives), if
/// it reads as one. Object members keep their order; their keys are
/// distinct.
#[derive(Debug, PartialEq)]
pub enum Json {
    Null,
    Bool(bool),
    Number(u64),
    String { text: String, number: Option<u64> },
    Array(Vec<Json>),
    Object(Vec<(String, Json)>),
}

/// The member `key` of an object; nothing for other values.
pub open spec fn json_field(j: Json, key: Seq<char>) -> Option<Json> {
    match j {
        Json::Object(fields) => match header_index(fields@, key) {
            Some(i) => Some(fields@[i].1),
            None => None,
        },
        _ => None,
    }
}

/// The value reached from `j` by following the member names of `path`; a
/// missing member gives `Null`, from which every further step gives `Null`.
pub open spec fn json_at(j: Json, path: Seq<String>) -> Json
    decreases path.len(),
{
    if path.len() == 0 {
        j
    } else {
        let next = match json_field(j, path[0]@) {
            Some(v) => v,
            None => Json::Null,
        };
        json_at(next, path.drop_first())
    }
}

/// Following any path from `Null` gives `Null`.
pub proof fn lemma_json_at_null(path: Seq<String>)
    ensures
        json_at(Json::Null, path) == Json::Null,
    decreases path.len(),
{
    if path.len() > 0 {
        lemma_json_at_null(path.drop_first());
    }
}

/// Following a path and then another is following their concatenation.
pub proof fn lemma_json_at_concat(j: Json, p: Seq<String>, q: Seq<String>)
    ensures
        json_at(json_at(j, p), q) == json_at(j, p + q),
    decreases p.len(),
{
    if p.len() > 0 {
        let next = match json_field(j, p[0]@) {
            Some(v) => v,
            None => Json::Null,
        };
        lemma_json_at_concat(next, p.drop_first(), q);
        assert((p + q).drop_first() =~= p.drop_first() + q);
        assert((p + q)[0] == p[0]);
    } else {
        assert(p + q =~= q);
    }
}

/// The value reached from `json` by the member names of `entry`; `None`
/// stands for `Null` reached through a missing member.
pub fn get_main_json_entry<'a>(json: &'a Json, entry: &Vec<String>) -> (res: Option<&'a Json>)
    ensures
        match res {
            Some(v) => *v == json_at(*json, entry@),
            None => json_at(*json, entry@) == Json::Null,
        },
{
    let mut cur: &'a Json = json;
    let mut i: usize = 0;
    assert(entry@.skip(0) =~= entry@);
    while i < entry.len()
        invariant
            i <= entry@.len(),
            json_at(*json, entry@) == json_at(*cur, entry@.skip(i as int)),
        decreases entry@.len() - i,
    {
        let ghost rest = entry@.skip(i as int);
        assert(rest[0] == entry@[i as int]);
        assert(rest.drop_first() =~= entry@.skip(i + 1));
        match cur {
            Json::Object(fields) => {
                let found = crate::models::find_column(fields, &entry[i]);
                proof {
                    crate::models::lemma_header_index(fields@, entry@[i as int]@);
                }
                match found {
                    Some(k) => {
                        cur = &fields[k].1;
                    },
                    None => {
                        proof {
                            lemma_json_at_null(entry@.skip(i + 1));
                        }
                        return None;
                    },
                }
            },
            _ => {
                proof {
                    lemma_json_at_null(entry@.skip(i + 1));
                }
                return None;
            },
        }
        i = i + 1;
    }
    assert(entry@.skip(i as int) =~= Seq::<String>::empty());
    Some(cur)
}

} // verus!
