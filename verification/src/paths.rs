//! Slash-separated paths, as `std::path::Path` reads them on Unix.
use vstd::prelude::*;

use crate::text::{chars_of, concat2, owned, push_char, push_str};

verus! {

/// `base.join(name)` for a relative `name`: `name` after `base` and one `/`, unless
/// `base` is empty or already ends with `/`.
pub open spec fn join_path_seq(base: Seq<char>, name: Seq<char>) -> Seq<char> {
    if base.len() == 0 {
        name
    } else if base.last() == '/' {
        base + name
    } else {
        base + seq!['/'] + name
    }
}

/// `Path::new(base).join(name)` for a relative `name`.
pub fn join_path(base: &str, name: &str) -> (r: String)
    ensures
        r@ == join_path_seq(base@, name@),
{
    let v = chars_of(base);
    if v.len() == 0 {
        owned(name)
    } else if v[v.len() - 1] == '/' {
        concat2(base, name)
    } else {
        let mut r = owned(base);
        push_char(&mut r, '/');
        push_str(&mut r, name);
        r
    }
}

} // verus!
