//! Car spawner (`carspawn.dat`) text scanning helpers.
use vstd::prelude::*;
use vstd::string::StringSliceAdditionalSpecFns;
use vstd::utf8::*;

use crate::ascii::{ascii_lit_bytes, lit_bytes};
use crate::trim::{
    eq_ignore_case, find_byte, find_ignore_case, first_byte, first_ci, lemma_first_byte_bounds,
    lemma_first_ci_bounds, matches_at_ignore_case,
};
use crate::typed::sigcfg::{matching_paren_end, matching_paren_spec};
use crate::utf8_bounds::{lemma_ascii_boundary, lemma_slice_valid, utf8_string};

verus! {

/// The quoted name after the first `ListName` (any case) of a block.
pub open spec fn list_name_spec(b: Seq<u8>) -> Option<Seq<u8>> {
    match first_ci(b, lit_bytes("listname"@), 0) {
        None => None,
        Some(idx) => match first_byte(b, 34u8, idx + 8) {
            None => None,
            Some(q1) => match first_byte(b, 34u8, q1 + 1) {
                None => None,
                Some(q2) => Some(b.subrange(q1 + 1, q2)),
            },
        },
    }
}

/// The quoted name after the first `ListName` (any case) of a block.
pub fn find_list_name(block: &str) -> (r: Option<String>)
    ensures
        r is Some <==> list_name_spec(block.spec_bytes()) is Some,
        r matches Some(s) ==> s@ == decode_utf8(list_name_spec(block.spec_bytes()).unwrap()),
{
    proof {
        reveal_strlit("listname");
    }
    let b = block.as_bytes();
    proof {
        encode_utf8_valid_utf8(block@);
        lemma_first_ci_bounds(b@, lit_bytes("listname"@), 0);
    }
    let key = ascii_lit_bytes("listname");
    assert(key@ == lit_bytes("listname"@));
    assert(key@.len() == 8);
    assert(b@.len() == b.len());
    let idx = match find_ignore_case(b, 0, key) {
        None => return None,
        Some(i) => i,
    };
    proof {
        lemma_first_byte_bounds(b@, 34u8, idx + 8);
    }
    let q1 = match find_byte(b, idx + 8, 34u8) {
        None => return None,
        Some(q) => q,
    };
    proof {
        lemma_first_byte_bounds(b@, 34u8, q1 + 1);
    }
    let q2 = match find_byte(b, q1 + 1, 34u8) {
        None => return None,
        Some(q) => q,
    };
    proof {
        lemma_ascii_boundary(b@, q1 as int);
        lemma_ascii_boundary(b@, q2 as int);
        lemma_slice_valid(b@, q1 + 1, q2 as int);
    }
    Some(utf8_string(vstd::slice::slice_subrange(b, q1 + 1, q2)))
}


/// Named list of car models (`Default` or an `ORTSListName`), with items of type `I`.
#[derive(Clone, Debug, PartialEq)]
pub struct CarSpawnerList<I> {
    pub name: String,
    pub items: Vec<I>,
}

/// Combined default and OpenRails multi-list catalogues.
#[derive(Clone, Debug, Default, PartialEq)]
pub struct CarSpawnerCatalog<I> {
    pub lists: Vec<CarSpawnerList<I>>,
}

/// Index of the first list from `k` on named `name` (any case).
pub open spec fn list_named_from<I>(lists: Seq<CarSpawnerList<I>>, name: Seq<u8>, k: int) -> Option<
    int,
>
    decreases lists.len() - k,
{
    if k < 0 || k >= lists.len() {
        None
    } else if eq_ignore_case(encode_utf8(lists[k].name@), name) {
        Some(k)
    } else {
        list_named_from(lists, name, k + 1)
    }
}

/// Index of the first list from `k` on that has items.
pub open spec fn nonempty_from<I>(lists: Seq<CarSpawnerList<I>>, k: int) -> Option<int>
    decreases lists.len() - k,
{
    if k < 0 || k >= lists.len() {
        None
    } else if lists[k].items@.len() > 0 {
        Some(k)
    } else {
        nonempty_from(lists, k + 1)
    }
}

/// The list named `name` when it has items.
pub open spec fn nonempty_named<I>(lists: Seq<CarSpawnerList<I>>, name: Seq<u8>) -> Option<int> {
    match list_named_from(lists, name, 0) {
        Some(k) => if lists[k].items@.len() > 0 {
            Some(k)
        } else {
            None
        },
        None => None,
    }
}

/// The list a spawner draws from: the named list when it has items, else the
/// `Default` list when it has items, else the first list with items.
pub open spec fn resolve_spec<I>(lists: Seq<CarSpawnerList<I>>, name: Option<Seq<u8>>) -> Option<
    int,
> {
    let named = match name {
        Some(n) => nonempty_named(lists, n),
        None => None,
    };
    match named {
        Some(k) => Some(k),
        None => match nonempty_named(lists, lit_bytes("Default"@)) {
            Some(k) => Some(k),
            None => nonempty_from(lists, 0),
        },
    }
}

/// The text of an optional name, as UTF-8 bytes.
pub open spec fn opt_name_bytes(name: Option<&str>) -> Option<Seq<u8>> {
    match name {
        Some(n) => Some(n.spec_bytes()),
        None => None,
    }
}

/// A list found by [`list_named_from`] is one of the lists, from `k` on.
pub proof fn lemma_list_named_bounds<I>(lists: Seq<CarSpawnerList<I>>, name: Seq<u8>, k: int)
    ensures
        list_named_from(lists, name, k) matches Some(j) ==> 0 <= k <= j < lists.len(),
    decreases lists.len() - k,
{
    if 0 <= k < lists.len() && !eq_ignore_case(encode_utf8(lists[k].name@), name) {
        lemma_list_named_bounds(lists, name, k + 1);
    }
}

/// A list found by [`nonempty_from`] is one of the lists, from `k` on, and has items.
pub proof fn lemma_nonempty_bounds<I>(lists: Seq<CarSpawnerList<I>>, k: int)
    ensures
        nonempty_from(lists, k) matches Some(j) ==> 0 <= k <= j < lists.len()
            && lists[j].items@.len() > 0,
    decreases lists.len() - k,
{
    if 0 <= k < lists.len() && lists[k].items@.len() == 0 {
        lemma_nonempty_bounds(lists, k + 1);
    }
}

/// The list a resolution finds is one of the lists and has items.
pub proof fn lemma_resolve_bounds<I>(lists: Seq<CarSpawnerList<I>>, name: Option<Seq<u8>>)
    ensures
        resolve_spec(lists, name) matches Some(j) ==> 0 <= j < lists.len() && lists[j].items@.len()
            > 0,
{
    if let Some(n) = name {
        lemma_list_named_bounds(lists, n, 0);
    }
    lemma_list_named_bounds(lists, lit_bytes("Default"@), 0);
    lemma_nonempty_bounds(lists, 0);
}

fn list_index_named<I>(lists: &Vec<CarSpawnerList<I>>, name: &str) -> (r: Option<usize>)
    ensures
        r matches Some(k) ==> list_named_from(lists@, name.spec_bytes(), 0) == Some(k as int)
            && k < lists@.len(),
        r is None ==> list_named_from(lists@, name.spec_bytes(), 0) is None,
{
    let n = name.as_bytes();
    let mut k: usize = 0;
    while k < lists.len()
        invariant
            k <= lists@.len(),
            n@ == name.spec_bytes(),
            list_named_from(lists@, n@, 0) == list_named_from(lists@, n@, k as int),
        decreases lists@.len() - k,
    {
        let l = lists[k].name.as_str().as_bytes();
        if l.len() == n.len() && matches_at_ignore_case(l, 0, n) {
            assert(l@.subrange(0, n@.len() as int) =~= l@);
            return Some(k);
        }
        assert(l@.len() == n@.len() ==> l@.subrange(0, n@.len() as int) =~= l@);
        k = k + 1;
    }
    None
}

fn nonempty_named_index<I>(lists: &Vec<CarSpawnerList<I>>, name: &str) -> (r: Option<usize>)
    ensures
        r matches Some(k) ==> nonempty_named(lists@, name.spec_bytes()) == Some(k as int)
            && k < lists@.len(),
        r is None ==> nonempty_named(lists@, name.spec_bytes()) is None,
{
    match list_index_named(lists, name) {
        Some(k) => if lists[k].items.len() > 0 {
            Some(k)
        } else {
            None
        },
        None => None,
    }
}

fn resolve_index<I>(lists: &Vec<CarSpawnerList<I>>, list_name: Option<&str>) -> (r: Option<usize>)
    ensures
        r matches Some(k) ==> resolve_spec(lists@, opt_name_bytes(list_name)) == Some(k as int)
            && k < lists@.len(),
        r is None ==> resolve_spec(lists@, opt_name_bytes(list_name)) is None,
{
    match list_name {
        Some(name) => {
            match nonempty_named_index(lists, name) {
                Some(k) => {
                    return Some(k);
                },
                None => {
                    assert(nonempty_named(lists@, name.spec_bytes()) is None);
                },
            }
        },
        None => {},
    }
    assert(match opt_name_bytes(list_name) {
        Some(n) => nonempty_named(lists@, n) is None,
        None => true,
    });
    proof {
        reveal_strlit("Default");
        vstd::string::is_ascii_spec_bytes("Default");
        assert("Default".spec_bytes() =~= lit_bytes("Default"@));
    }
    if let Some(k) = nonempty_named_index(lists, "Default") {
        return Some(k);
    }
    let mut k: usize = 0;
    while k < lists.len()
        invariant
            k <= lists@.len(),
            resolve_spec(lists@, opt_name_bytes(list_name)) == nonempty_from(lists@, 0),
            nonempty_from(lists@, 0) == nonempty_from(lists@, k as int),
        decreases lists@.len() - k,
    {
        if lists[k].items.len() > 0 {
            return Some(k);
        }
        k = k + 1;
    }
    None
}

impl<I> CarSpawnerCatalog<I> {
    /// The first list named `name` (any case).
    pub fn list_by_name(&self, name: &str) -> (r: Option<&CarSpawnerList<I>>)
        ensures
            match list_named_from(self.lists@, name.spec_bytes(), 0) {
                Some(k) => r matches Some(l) && *l == self.lists@[k],
                None => r is None,
            },
    {
        match list_index_named(&self.lists, name) {
            Some(k) => Some(&self.lists[k]),
            None => None,
        }
    }

    /// The list for a spawner: the named list when it has items, else the
    /// `Default` list when it has items, else the first list with items.
    pub fn resolve_list(&self, list_name: Option<&str>) -> (r: Option<&CarSpawnerList<I>>)
        ensures
            match resolve_spec(self.lists@, opt_name_bytes(list_name)) {
                Some(k) => r matches Some(l) && *l == self.lists@[k],
                None => r is None,
            },
    {
        match resolve_index(&self.lists, list_name) {
            Some(k) => Some(&self.lists[k]),
            None => None,
        }
    }

    /// The model a spawner with `uid` shows: item `uid % len` of its resolved list.
    pub fn pick_item(&self, list_name: Option<&str>, uid: u32) -> (r: Option<&I>)
        ensures
            match resolve_spec(self.lists@, opt_name_bytes(list_name)) {
                Some(k) => r matches Some(item) && *item == self.lists@[k].items@[(uid as int)
                    % self.lists@[k].items@.len() as int],
                None => r is None,
            },
    {
        proof {
            lemma_resolve_bounds(self.lists@, opt_name_bytes(list_name));
        }
        let list = match self.resolve_list(list_name) {
            Some(l) => l,
            None => return None,
        };
        if list.items.len() == 0 {
            return None;
        }
        let i = (uid as usize) % list.items.len();
        Some(&list.items[i])
    }
}


/// Bytes of `carspawnerlist`.
pub open spec fn list_key() -> Seq<u8> {
    lit_bytes("carspawnerlist"@)
}

/// Byte ranges of the `CarSpawnerList ( … )` blocks of `b` from `from` on.
///
/// Each `CarSpawnerList` (any case) is followed to the next `(`; when that
/// `(` is closed, the block runs from it to its `)` inclusive and the scan
/// resumes after it, else the scan resumes after the keyword.
pub open spec fn list_blocks_spec(b: Seq<u8>, from: int) -> Seq<(int, int)>
    decreases b.len() + 1 - from,
{
    match first_ci(b, list_key(), from) {
        None => seq![],
        Some(idx) => {
            let next = idx + 14;
            if !(from < next <= b.len()) {
                seq![]
            } else {
                match first_byte(b, 40u8, next) {
                    None => list_blocks_spec(b, next),
                    Some(open) => match matching_paren_spec(b.subrange(open, b.len() as int)) {
                        None => list_blocks_spec(b, next),
                        Some(er) => if from < open + er + 1 <= b.len() {
                            seq![(open, open + er + 1)] + list_blocks_spec(b, open + er + 1)
                        } else {
                            seq![]
                        },
                    },
                }
            }
        },
    }
}

/// The name a list block gives: its `ListName`, else `Unnamed`.
pub open spec fn list_block_name(block: Seq<u8>) -> Seq<char> {
    match list_name_spec(block) {
        Some(n) => decode_utf8(n),
        None => "Unnamed"@,
    }
}

/// The OpenRails `CarSpawnerList ( … )` blocks of a text, in order: each
/// list's name (`ListName`, else `Unnamed`) and the block's text, from which
/// the caller reads the items.
pub fn scan_orts_lists(text: &str) -> (r: Vec<(String, String)>)
    ensures
        r@.len() == list_blocks_spec(text.spec_bytes(), 0).len(),
        forall|k: int|
            0 <= k < r@.len() ==> {
                let rg = list_blocks_spec(text.spec_bytes(), 0)[k];
                let block = text.spec_bytes().subrange(rg.0, rg.1);
                &&& encode_utf8((#[trigger] r@[k]).1@) == block
                &&& r@[k].0@ == list_block_name(block)
            },
{
    let b = text.as_bytes();
    proof {
        reveal_strlit("carspawnerlist");
        encode_utf8_valid_utf8(text@);
    }
    let key = ascii_lit_bytes("carspawnerlist");
    let mut out: Vec<(String, String)> = Vec::new();
    let ghost mut done: Seq<(int, int)> = seq![];
    let mut from: usize = 0;
    while from <= b.len()
        invariant
            from <= b@.len() + 1,
            b@ == text.spec_bytes(),
            valid_utf8(b@),
            key@ == list_key(),
            list_key().len() == 14,
            done + list_blocks_spec(b@, from as int) == list_blocks_spec(b@, 0),
            out@.len() == done.len(),
            forall|k: int|
                0 <= k < out@.len() ==> {
                    let block = b@.subrange(done[k].0, done[k].1);
                    &&& encode_utf8((#[trigger] out@[k]).1@) == block
                    &&& out@[k].0@ == list_block_name(block)
                },
        ensures
            done == list_blocks_spec(b@, 0),
            out@.len() == done.len(),
            forall|k: int|
                0 <= k < out@.len() ==> {
                    let block = b@.subrange(done[k].0, done[k].1);
                    &&& encode_utf8((#[trigger] out@[k]).1@) == block
                    &&& out@[k].0@ == list_block_name(block)
                },
        decreases b@.len() + 1 - from,
    {
        proof {
            lemma_first_ci_bounds(b@, key@, from as int);
        }
        let idx = match find_ignore_case(b, from, key) {
            None => {
                assert(done + list_blocks_spec(b@, from as int) =~= done);
                break;
            },
            Some(i) => i,
        };
        let next = idx + 14;
        proof {
            lemma_first_byte_bounds(b@, 40u8, next as int);
        }
        let open = match find_byte(b, next, 40u8) {
            None => {
                from = next;
                continue;
            },
            Some(o) => o,
        };
        let close = match matching_paren_end(b, open) {
            None => {
                from = next;
                continue;
            },
            Some(c) => c,
        };
        proof {
            lemma_ascii_boundary(b@, open as int);
            lemma_ascii_boundary(b@, close as int);
            lemma_slice_valid(b@, open as int, close + 1);
        }
        let block = utf8_string(vstd::slice::slice_subrange(b, open, close + 1));
        let name = match find_list_name(block.as_str()) {
            Some(n) => n,
            None => "Unnamed".to_string(),
        };
        out.push((name, block));
        proof {
            let rg = (open as int, close + 1);
            assert(list_blocks_spec(b@, from as int) == seq![rg] + list_blocks_spec(b@, close + 1));
            done = done.push(rg);
            assert(done + list_blocks_spec(b@, close + 1) =~= done.drop_last() + (seq![rg]
                + list_blocks_spec(b@, close + 1)));
        }
        from = close + 1;
    }
    out
}

} // verus!
