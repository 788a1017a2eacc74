use vstd::prelude::*;
use crate::text::{dec_str, find_ch, find_char, str_eq, usize_to_string};

verus! {

/// A directory entry serves as the fixture for `id` when the part of its
/// name before the first dot is exactly the id written in decimal.
pub open spec fn entry_matches(e: Seq<char>, id: nat) -> bool {
    match find_ch(e, '.') {
        Some(i) => e.take(i) == dec_str(id),
        None => false,
    }
}

/// Plain lexicographic order on text, by character value.
pub open spec fn lex_lt(a: Seq<char>, b: Seq<char>) -> bool
    decreases a.len(),
{
    if b.len() == 0 {
        false
    } else if a.len() == 0 {
        true
    } else if a[0] != b[0] {
        a[0] < b[0]
    } else {
        lex_lt(a.drop_first(), b.drop_first())
    }
}

/// The entry a fixture lookup by id names: the lexicographically least
/// matching entry of the listing, `None` when none matches. Of equal
/// candidates the earlier one is kept, which changes nothing: they are the
/// same name.
pub open spec fn best_entry(ent: Seq<Seq<char>>, id: nat) -> Option<Seq<char>>
    decreases ent.len(),
{
    if ent.len() == 0 {
        None
    } else {
        let rest = best_entry(ent.drop_last(), id);
        if entry_matches(ent.last(), id) {
            match rest {
                Some(b) => if lex_lt(ent.last(), b) {
                    Some(ent.last())
                } else {
                    Some(b)
                },
                None => Some(ent.last()),
            }
        } else {
            rest
        }
    }
}

fn str_lt(a: &str, b: &str) -> (r: bool)
    ensures
        r == lex_lt(a@, b@),
    decreases a@.len(),
{
    let an = a.unicode_len();
    let bn = b.unicode_len();
    if bn == 0 {
        false
    } else if an == 0 {
        true
    } else {
        let ca = a.get_char(0);
        let cb = b.get_char(0);
        if ca != cb {
            ca < cb
        } else {
            str_lt(a.substring_char(1, an), b.substring_char(1, bn))
        }
    }
}

fn entry_match(e: &str, id_text: &String) -> (r: bool)
    requires
        exists|n: nat| id_text@ == dec_str(n),
    ensures
        forall|n: nat| id_text@ == dec_str(n) ==> r == entry_matches(e@, n),
{
    match find_char(e, '.') {
        Some(i) => {
            let head = e.substring_char(0, i);
            let r = str_eq(head, id_text.as_str());
            proof {
                assert(e@.take(i as int) =~= e@.subrange(0, i as int));
            }
            r
        },
        None => false,
    }
}

/// Pick the fixture entry for `id` out of a directory listing: the
/// lexicographically least name whose part before the first dot is the id
/// in decimal. `None` when no entry matches.
pub fn resolve_fixture(entries: &Vec<String>, id: usize) -> (r: Option<String>)
    ensures
        match r {
            Some(e) => best_entry(entries.deep_view(), id as nat) == Some(e@),
            None => best_entry(entries.deep_view(), id as nat) is None,
        },
{
    let id_text = usize_to_string(id);
    let n = entries.len();
    let mut best: Option<String> = None;
    let mut i: usize = 0;
    proof {
        assert(entries.deep_view().take(0) =~= Seq::<Seq<char>>::empty());
    }
    while i < n
        invariant
            i <= n,
            n == entries.deep_view().len(),
            id_text@ == dec_str(id as nat),
            match best {
                Some(b) => best_entry(entries.deep_view().take(i as int), id as nat) == Some(b@),
                None => best_entry(entries.deep_view().take(i as int), id as nat) is None,
            },
        decreases n - i,
    {
        let e = &entries[i];
        proof {
            assert(entries.deep_view()[i as int] == e@);
            assert(entries.deep_view().take(i as int + 1).drop_last() =~= entries.deep_view().take(
                i as int,
            ));
            assert(entries.deep_view().take(i as int + 1).last() == e@);
        }
        if entry_match(e.as_str(), &id_text) {
            match &best {
                None => {
                    best = Some(e.clone());
                },
                Some(b) => {
                    if str_lt(e.as_str(), b.as_str()) {
                        best = Some(e.clone());
                    }
                },
            }
        }
        i += 1;
    }
    proof {
        assert(entries.deep_view().take(n as int) =~= entries.deep_view());
    }
    best
}

/// In a directory where exactly one entry's name starts with the id and a
/// dot, lookup is deterministic: it can only name that entry.
pub proof fn lemma_unique_fixture(dv: Seq<Seq<char>>, id: nat, t: int)
    requires
        0 <= t < dv.len(),
        entry_matches(dv[t], id),
        forall|k: int| 0 <= k < dv.len() && k != t ==> !entry_matches(#[trigger] dv[k], id),
    ensures
        best_entry(dv, id) == Some(dv[t]),
    decreases dv.len(),
{
    if t == dv.len() - 1 {
        assert forall|k: int| 0 <= k < dv.drop_last().len() implies !entry_matches(
            #[trigger] dv.drop_last()[k],
            id,
        ) by {
            assert(dv.drop_last()[k] == dv[k]);
        }
        lemma_no_match_no_entry(dv.drop_last(), id);
    } else {
        assert(dv.drop_last()[t] == dv[t]);
        assert(!entry_matches(dv.last(), id));
        lemma_unique_fixture(dv.drop_last(), id, t);
    }
}

proof fn lemma_no_match_no_entry(dv: Seq<Seq<char>>, id: nat)
    requires
        forall|k: int| 0 <= k < dv.len() ==> !entry_matches(#[trigger] dv[k], id),
    ensures
        best_entry(dv, id) is None,
    decreases dv.len(),
{
    if dv.len() > 0 {
        assert forall|k: int| 0 <= k < dv.drop_last().len() implies !entry_matches(
            #[trigger] dv.drop_last()[k],
            id,
        ) by {
            assert(dv.drop_last()[k] == dv[k]);
        }
        lemma_no_match_no_entry(dv.drop_last(), id);
    }
}

} // verus!
