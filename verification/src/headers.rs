use vstd::prelude::*;

verus! {

/// The header at position `i` of `headers`, or the empty text past its end.
pub open spec fn header_or_blank(headers: Seq<String>, i: int) -> Seq<char> {
    if 0 <= i < headers.len() {
        headers[i]@
    } else {
        Seq::empty()
    }
}

/// Pairs the primary headers with the other headers, line by line: the
/// shorter list is padded with empty headers so that both have the length of
/// the longer one.
pub fn merge_primary_row_headers(primary_headers: &[String], non_primary_headers: &[String]) -> (res:
    Vec<(String, String)>)
    ensures
        res@.len() == if primary_headers@.len() >= non_primary_headers@.len() {
            primary_headers@.len()
        } else {
            non_primary_headers@.len()
        },
        forall|i: int|
            0 <= i < res@.len() ==> #[trigger] res@[i].0@ == header_or_blank(primary_headers@, i)
                && res@[i].1@ == header_or_blank(non_primary_headers@, i),
{
    let n = if primary_headers.len() >= non_primary_headers.len() {
        primary_headers.len()
    } else {
        non_primary_headers.len()
    };
    let mut res: Vec<(String, String)> = Vec::new();
    let mut i: usize = 0;
    while i < n
        invariant
            i <= n,
            n == if primary_headers@.len() >= non_primary_headers@.len() {
                primary_headers@.len()
            } else {
                non_primary_headers@.len()
            },
            res@.len() == i,
            forall|k: int|
                0 <= k < i ==> #[trigger] res@[k].0@ == header_or_blank(primary_headers@, k)
                    && res@[k].1@ == header_or_blank(non_primary_headers@, k),
        decreases n - i,
    {
        let left = if i < primary_headers.len() {
            primary_headers[i].clone()
        } else {
            String::new()
        };
        let right = if i < non_primary_headers.len() {
            non_primary_headers[i].clone()
        } else {
            String::new()
        };
        res.push((left, right));
        i = i + 1;
    }
    res
}

} // verus!
