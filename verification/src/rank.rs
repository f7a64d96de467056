//! Ranking: devices in the order of their signal strength, the strongest
//! first, devices of equal strength in the order in which they came.

use vstd::prelude::*;
use vstd::set_lib::{lemma_int_range, lemma_len_subset, lemma_subset_equality, set_int_range};
use crate::enrich::{device_views, Device, DeviceView};

verus! {

/// The number by which a device is ranked: its signal strength, or a number
/// below every signal strength where it has none.
pub open spec fn strength(d: DeviceView) -> int {
    match d.signal_strength {
        Some(s) => s as int,
        None => -32769,
    }
}

/// Whether a device from index `a` of the input goes before one from index
/// `b`: it is stronger, or as strong and from an earlier index.
pub open spec fn in_rank_order(first: DeviceView, a: int, second: DeviceView, b: int) -> bool {
    strength(first) > strength(second) || (strength(first) == strength(second) && a < b)
}

/// `output` holds the devices of `input` from index `from` on, `output[i]`
/// being `input[origin[i]]`; of two devices the one of greater strength
/// stands first, and of two of equal strength the one that stood first in
/// `input`. So each device of that part of `input` stands in `output` once.
pub open spec fn ranks(
    input: Seq<DeviceView>,
    from: int,
    output: Seq<DeviceView>,
    origin: Seq<int>,
) -> bool {
    &&& 0 <= from <= input.len()
    &&& output.len() == input.len() - from
    &&& origin.len() == output.len()
    &&& forall|i: int|
        0 <= i < origin.len() ==> from <= #[trigger] origin[i] < input.len() && output[i]
            == input[origin[i]]
    &&& forall|i: int, j: int|
        #![trigger origin[i], origin[j]]
        0 <= i < j < origin.len() ==> in_rank_order(output[i], origin[i], output[j], origin[j])
}

/// `output` is `input` in ranked order.
pub open spec fn is_ranking(input: Seq<DeviceView>, output: Seq<DeviceView>) -> bool {
    exists|origin: Seq<int>| ranks(input, 0, output, origin)
}

/// In a ranked order no device stands before a stronger one.
pub proof fn law_ranking_sorted(input: Seq<DeviceView>, output: Seq<DeviceView>, i: int, j: int)
    requires
        is_ranking(input, output),
        0 <= i <= j < output.len(),
    ensures
        strength(output[i]) >= strength(output[j]),
{
    let origin = choose|origin: Seq<int>| ranks(input, 0, output, origin);
    if i < j {
        let a = origin[i];
        let b = origin[j];
        assert(in_rank_order(output[i], a, output[j], b));
    }
}

/// In a ranked order every device of the input has its place: each index of
/// the input is the origin of some index of the output.
pub proof fn lemma_origin_covers(
    input: Seq<DeviceView>,
    output: Seq<DeviceView>,
    origin: Seq<int>,
    a: int,
)
    requires
        ranks(input, 0, output, origin),
        0 <= a < input.len(),
    ensures
        exists|i: int| 0 <= i < origin.len() && origin[i] == a,
{
    assert forall|i: int, j: int|
        0 <= i < origin.len() && 0 <= j < origin.len() && i != j implies origin[i] != origin[j] by {
        if i < j {
            assert(in_rank_order(output[i], origin[i], output[j], origin[j]));
        } else {
            assert(in_rank_order(output[j], origin[j], output[i], origin[i]));
        }
    }
    assert(origin.no_duplicates());
    origin.unique_seq_to_set();
    let full = set_int_range(0, input.len() as int);
    lemma_int_range(0, input.len() as int);
    assert forall|x: int| origin.to_set().contains(x) implies full.contains(x) by {
        let i = choose|i: int| 0 <= i < origin.len() && origin[i] == x;
        assert(0 <= origin[i] < input.len());
    }
    assert(origin.to_set().subset_of(full));
    lemma_len_subset(origin.to_set(), full);
    lemma_subset_equality(origin.to_set(), full);
    assert(full.contains(a));
    assert(origin.to_set().contains(a));
    assert(origin.contains(a));
}

/// Two ranked orders of the same devices take each place from the same
/// index of the input.
pub proof fn lemma_same_origin(
    input: Seq<DeviceView>,
    first: Seq<DeviceView>,
    first_origin: Seq<int>,
    second: Seq<DeviceView>,
    second_origin: Seq<int>,
    i: int,
)
    requires
        ranks(input, 0, first, first_origin),
        ranks(input, 0, second, second_origin),
        0 <= i < input.len(),
    ensures
        first_origin[i] == second_origin[i],
    decreases i,
{
    let a = first_origin[i];
    let b = second_origin[i];
    if a != b {
        assert(0 <= a < input.len() && 0 <= b < input.len());
        assert(first[i] == input[a] && second[i] == input[b]);
        if in_rank_order(input[a], a, input[b], b) {
            lemma_origin_covers(input, second, second_origin, a);
            let j = choose|j: int| 0 <= j < second_origin.len() && second_origin[j] == a;
            if j < i {
                lemma_same_origin(input, first, first_origin, second, second_origin, j);
                assert(in_rank_order(first[j], first_origin[j], first[i], first_origin[i]));
            } else {
                assert(j > i);
                assert(in_rank_order(second[i], second_origin[i], second[j], second_origin[j]));
            }
        } else {
            assert(in_rank_order(input[b], b, input[a], a));
            lemma_origin_covers(input, first, first_origin, b);
            let j = choose|j: int| 0 <= j < first_origin.len() && first_origin[j] == b;
            if j < i {
                lemma_same_origin(input, first, first_origin, second, second_origin, j);
                assert(in_rank_order(second[j], second_origin[j], second[i], second_origin[i]));
            } else {
                assert(j > i);
                assert(in_rank_order(first[i], first_origin[i], first[j], first_origin[j]));
            }
        }
    }
}

/// The ranked order of a list of devices is one: two lists that are both
/// the ranked order of the same devices are the same list.
pub proof fn law_ranking_unique(input: Seq<DeviceView>, first: Seq<DeviceView>, second: Seq<DeviceView>)
    requires
        is_ranking(input, first),
        is_ranking(input, second),
    ensures
        first == second,
{
    let first_origin = choose|origin: Seq<int>| ranks(input, 0, first, origin);
    let second_origin = choose|origin: Seq<int>| ranks(input, 0, second, origin);
    assert forall|i: int| 0 <= i < first.len() implies first[i] == second[i] by {
        lemma_same_origin(input, first, first_origin, second, second_origin, i);
        assert(first[i] == input[first_origin[i]]);
        assert(second[i] == input[second_origin[i]]);
    }
    assert(first =~= second);
}

/// A ranked order of the devices after index `k` stays one when the device
/// at index `k` is put in after those that are stronger than it and before
/// all others.
pub proof fn lemma_ranks_insert(
    input: Seq<DeviceView>,
    k: int,
    before: Seq<DeviceView>,
    before_origin: Seq<int>,
    pos: int,
)
    requires
        0 <= k < input.len(),
        ranks(input, k + 1, before, before_origin),
        0 <= pos <= before.len(),
        forall|i: int| 0 <= i < pos ==> strength(before[i]) > strength(input[k]),
        pos < before.len() ==> strength(before[pos]) <= strength(input[k]),
    ensures
        ranks(input, k, before.insert(pos, input[k]), before_origin.insert(pos, k)),
{
    let out = before.insert(pos, input[k]);
    let origin = before_origin.insert(pos, k);
    assert forall|i: int| 0 <= i < origin.len() implies k <= #[trigger] origin[i] < input.len()
        && out[i] == input[origin[i]] by {
        if i < pos {
            assert(origin[i] == before_origin[i]);
        } else if i > pos {
            assert(origin[i] == before_origin[i - 1]);
            assert(out[i] == before[i - 1]);
        }
    }
    assert forall|i: int, j: int|
        #![trigger origin[i], origin[j]]
        0 <= i < j < origin.len() implies in_rank_order(out[i], origin[i], out[j], origin[j]) by {
        if j < pos {
            assert(origin[i] == before_origin[i] && origin[j] == before_origin[j]);
            assert(out[i] == before[i] && out[j] == before[j]);
        } else if j == pos {
            assert(out[i] == before[i]);
            assert(out[j] == input[k]);
        } else if i == pos {
            assert(origin[j] == before_origin[j - 1]);
            assert(out[j] == before[j - 1]);
            assert(out[i] == input[k]);
            assert(origin[i] == k);
            assert(before_origin[j - 1] >= k + 1);
            if pos < j - 1 {
                let a = before_origin[pos];
                let b = before_origin[j - 1];
                assert(in_rank_order(before[pos], a, before[j - 1], b));
            }
        } else if i < pos {
            assert(origin[i] == before_origin[i] && origin[j] == before_origin[j - 1]);
            assert(out[i] == before[i] && out[j] == before[j - 1]);
        } else {
            assert(origin[i] == before_origin[i - 1] && origin[j] == before_origin[j - 1]);
            assert(out[i] == before[i - 1] && out[j] == before[j - 1]);
        }
    }
}

/// The number by which a device is ranked.
pub fn strength_of(d: &Device) -> (s: i32)
    ensures
        s == strength(d@),
{
    match d.signal_strength {
        Some(v) => v as i32,
        None => -32769,
    }
}

/// Ranks the devices: by signal strength, the strongest first and those
/// without one last; devices of equal strength keep their order.
pub fn rank(devices: Vec<Device>) -> (out: Vec<Device>)
    ensures
        is_ranking(device_views(devices@), device_views(out@)),
        out@.len() == devices@.len(),
{
    let ghost input = device_views(devices@);
    let mut rest: Vec<Device> = devices;
    let mut out: Vec<Device> = Vec::new();
    let ghost mut origin: Seq<int> = Seq::empty();
    assert(device_views(rest@) =~= input.take(rest@.len() as int));
    while rest.len() > 0
        invariant
            rest@.len() <= input.len(),
            device_views(rest@) == input.take(rest@.len() as int),
            ranks(input, rest@.len() as int, device_views(out@), origin),
        decreases rest@.len(),
    {
        let ghost k: int = rest@.len() - 1;
        let ghost before = out@;
        let ghost before_origin = origin;
        assert(device_views(rest@)[k] == rest@[k]@);
        let d: Device = rest.pop().unwrap();
        assert(d@ == input[k]);
        let key: i32 = strength_of(&d);
        let n: usize = out.len();
        let mut pos: usize = 0;
        while pos < n && strength_of(&out[pos]) > key
            invariant
                pos <= n,
                n == out@.len(),
                out@ == before,
                forall|i: int| 0 <= i < pos ==> strength(#[trigger] device_views(out@)[i]) > key,
            decreases n - pos,
        {
            assert(device_views(out@)[pos as int] == out@[pos as int]@);
            pos = pos + 1;
        }
        proof {
            if pos < n {
                assert(device_views(before)[pos as int] == before[pos as int]@);
            }
        }
        out.insert(pos, d);
        proof {
            lemma_ranks_insert(input, k, device_views(before), before_origin, pos as int);
            origin = before_origin.insert(pos as int, k);
            assert(device_views(out@) =~= device_views(before).insert(pos as int, input[k]));
            assert(device_views(rest@) =~= input.take(rest@.len() as int));
        }
    }
    out
}

} // verus!
