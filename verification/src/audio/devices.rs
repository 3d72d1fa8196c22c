//! The list of audio output devices offered to the user.

use vstd::prelude::*;
use crate::sort::{is_stable_order, stable_order, stable_order_spec};
use crate::text::{chars_of, lowercase_str, str_eq, str_lowercase};

verus! {

/// `s` without runs of equal neighbours: each run keeps its first element.
pub open spec fn dedup_spec(s: Seq<Seq<char>>) -> Seq<Seq<char>>
    decreases s.len(),
{
    if s.len() <= 1 {
        s
    } else {
        let d = dedup_spec(s.drop_last());
        if s.last() == s[s.len() - 2] {
            d
        } else {
            d.push(s.last())
        }
    }
}

/// The sort keys of device names: the names in lower case.
pub open spec fn device_keys(names: Seq<String>) -> Seq<Seq<char>> {
    names.map_values(|n: String| str_lowercase(n@))
}

/// The names in the order `order`.
pub open spec fn names_in_order(names: Seq<String>, order: Seq<usize>) -> Seq<Seq<char>> {
    order.map_values(|i: usize| names[i as int]@)
}

/// Device names as offered: sorted by their lower-case form (stably), then
/// with repeated neighbours dropped.
pub fn sorted_device_names(names: &Vec<String>) -> (r: Vec<String>)
    ensures
        r@.map_values(|n: String| n@) == dedup_spec(
            names_in_order(names@, stable_order_spec(device_keys(names@))),
        ),
{
    let mut keys: Vec<Vec<char>> = Vec::new();
    let mut i: usize = 0;
    while i < names.len()
        invariant
            i <= names.len(),
            keys@.map_values(|k: Vec<char>| k@) == device_keys(names@).take(i as int),
        decreases names.len() - i,
    {
        let lower = lowercase_str(names[i].as_str());
        let chars = chars_of(lower.as_str());
        let ghost before = keys@.map_values(|k: Vec<char>| k@);
        keys.push(chars);
        proof {
            assert(keys@.map_values(|k: Vec<char>| k@) =~= before.push(chars@));
            assert(device_keys(names@).take(i + 1) =~= device_keys(names@).take(i as int).push(
                str_lowercase(names@[i as int]@),
            ));
        }
        i += 1;
    }
    proof {
        assert(device_keys(names@).take(i as int) =~= device_keys(names@));
    }
    let order = stable_order(&keys);
    let ghost ks = device_keys(names@);
    let ghost sorted = names_in_order(names@, order@);
    let mut out: Vec<String> = Vec::new();
    let mut j: usize = 0;
    while j < order.len()
        invariant
            is_stable_order(ks, order@),
            order@ == stable_order_spec(ks),
            ks == device_keys(names@),
            ks.len() == names.len(),
            sorted == names_in_order(names@, order@),
            j <= order.len(),
            out@.map_values(|n: String| n@) == dedup_spec(sorted.take(j as int)),
        decreases order.len() - j,
    {
        let name = &names[order[j]];
        let ghost prev = sorted.take(j as int);
        let ghost next = sorted.take(j + 1);
        proof {
            assert(next.drop_last() =~= prev);
            assert(next.last() == name@);
            if j > 0 {
                assert(next[next.len() - 2] == sorted[j - 1]);
            }
        }
        let repeat = if j > 0 {
            str_eq(names[order[j - 1]].as_str(), name.as_str())
        } else {
            false
        };
        let ghost before = out@.map_values(|n: String| n@);
        if !repeat {
            out.push(name.clone());
            proof {
                assert(out@.map_values(|n: String| n@) =~= before.push(name@));
            }
        }
        proof {
            if j == 0 {
                assert(next.len() == 1);
                assert(dedup_spec(prev) =~= Seq::<Seq<char>>::empty());
                assert(before =~= Seq::<Seq<char>>::empty());
                assert(dedup_spec(next) == next);
                assert(next =~= seq![name@]);
            }
        }
        j += 1;
    }
    proof {
        assert(sorted.take(j as int) =~= sorted);
    }
    out
}

} // verus!
