//! Named weights, and what they tell about a model.
use crate::error::TtsError;
use crate::tensor::{copy, dims, tensor_dims};
use crate::text::{has_prefix, same_text};
use candle_core::Tensor;
use vstd::prelude::*;

verus! {

/// Tensors by name. No name occurs twice.
pub struct Weights {
    pub entries: Vec<(String, Tensor)>,
}

/// The tensors of a list by name, where a later one replaces an earlier one.
pub open spec fn by_name(entries: Seq<(String, Tensor)>) -> Map<Seq<char>, Tensor>
    decreases entries.len(),
{
    if entries.len() == 0 {
        Map::empty()
    } else {
        by_name(entries.drop_last()).insert(entries.last().0@, entries.last().1)
    }
}

/// Whether no name occurs twice.
pub open spec fn distinct_names(entries: Seq<(String, Tensor)>) -> bool {
    forall|i: int, j: int|
        0 <= i < j < entries.len() ==> #[trigger] entries[i].0@ != #[trigger] entries[j].0@
}

/// What a list of distinct names holds.
pub proof fn lemma_by_name(entries: Seq<(String, Tensor)>)
    requires
        distinct_names(entries),
    ensures
        forall|i: int|
            0 <= i < entries.len() ==> by_name(entries).contains_key((#[trigger] entries[i]).0@)
                && by_name(entries)[entries[i].0@] == entries[i].1,
        forall|k: Seq<char>| #[trigger]
            by_name(entries).contains_key(k) ==> exists|i: int|
                0 <= i < entries.len() && (#[trigger] entries[i]).0@ == k,
    decreases entries.len(),
{
    if entries.len() > 0 {
        let init = entries.drop_last();
        assert(distinct_names(init)) by {
            assert forall|i: int, j: int| 0 <= i < j < init.len() implies #[trigger] init[i].0@
                != #[trigger] init[j].0@ by {
                assert(entries[i].0@ != entries[j].0@);
            }
        }
        lemma_by_name(init);
        let n = entries.len() - 1;
        assert forall|i: int| 0 <= i < entries.len() implies by_name(entries).contains_key(
            (#[trigger] entries[i]).0@,
        ) && by_name(entries)[entries[i].0@] == entries[i].1 by {
            if i < n {
                assert(init[i] == entries[i]);
                assert(entries[i].0@ != entries[n].0@);
            }
        }
        assert forall|k: Seq<char>| #[trigger] by_name(entries).contains_key(k) implies exists|i: int|
            0 <= i < entries.len() && (#[trigger] entries[i]).0@ == k by {
            if k == entries[n].0@ {
                assert(entries[n].0@ == k);
            } else {
                assert(by_name(init).contains_key(k));
                let i = choose|i: int| 0 <= i < init.len() && (#[trigger] init[i]).0@ == k;
                assert(entries[i].0@ == k);
            }
        }
    }
}

/// The tensors whose names start with a prefix, under what follows it.
pub open spec fn under_prefix(
    weights: Map<Seq<char>, Tensor>,
    prefix: Seq<char>,
) -> Map<Seq<char>, Tensor> {
    Map::new(
        |k: Seq<char>| weights.contains_key(prefix + k),
        |k: Seq<char>| weights[prefix + k],
    )
}

/// Whether a name starts with a prefix.
pub open spec fn has_under(weights: Map<Seq<char>, Tensor>, prefix: Seq<char>) -> bool {
    exists|k: Seq<char>| #[trigger] weights.contains_key(k) && prefix.is_prefix_of(k)
}

/// The name of the weights of the talker's last normalization.
pub open spec fn norm_name() -> Seq<char> {
    "talker.model.norm.weight"@
}

/// Width of an embedding in the larger models.
pub const LARGE_HIDDEN_SIZE: usize = 2048;

/// Width of an embedding that the code predictor expects by default.
pub const PREDICTOR_HIDDEN_SIZE: usize = 1024;

/// Which configuration the talker gets.
#[derive(Clone, Copy, Debug, PartialEq, Eq, Structural)]
pub enum TalkerChoice {
    /// The one of the configuration file.
    Parsed,
    /// The one of the larger models.
    CustomVoice,
    /// The one of the smaller models.
    Default,
}

/// Which configuration the code predictor gets.
#[derive(Clone, Copy, Debug, PartialEq, Eq, Structural)]
pub enum PredictorChoice {
    /// The one of the configuration file.
    Parsed,
    /// The default one, but for codec embeddings of this width.
    Wide(usize),
    /// The default one.
    Default,
}

impl Weights {
    /// The tensors by name.
    pub open spec fn view(&self) -> Map<Seq<char>, Tensor> {
        by_name(self.entries@)
    }

    /// Whether no name occurs twice.
    pub open spec fn wf(self) -> bool {
        distinct_names(self.entries@)
    }

    /// No weights.
    pub fn new() -> (r: Weights)
        ensures
            r.wf(),
            r@ == Map::<Seq<char>, Tensor>::empty(),
    {
        Weights { entries: Vec::new() }
    }

    /// Where a name stands, if it is there.
    fn position(&self, name: &str) -> (r: Option<usize>)
        requires
            self.wf(),
        ensures
            match r {
                Some(i) => i < self.entries@.len() && self.entries@[i as int].0@ == name@
                    && self@.contains_key(name@) && self@[name@] == self.entries@[i as int].1,
                None => !self@.contains_key(name@) && forall|i: int|
                    0 <= i < self.entries@.len() ==> (#[trigger] self.entries@[i]).0@ != name@,
            },
    {
        proof {
            lemma_by_name(self.entries@);
        }
        let n = self.entries.len();
        let mut i: usize = 0;
        while i < n
            invariant
                i <= n,
                n == self.entries@.len(),
                forall|j: int| 0 <= j < i ==> (#[trigger] self.entries@[j]).0@ != name@,
                forall|j: int|
                    0 <= j < self.entries@.len() ==> self@.contains_key(
                        (#[trigger] self.entries@[j]).0@,
                    ) && self@[self.entries@[j].0@] == self.entries@[j].1,
            decreases n - i,
        {
            if same_text(self.entries[i].0.as_str(), name) {
                return Some(i);
            }
            i = i + 1;
        }
        None
    }

    /// Add a tensor, in place of the one that has its name.
    pub fn add(&mut self, name: String, tensor: Tensor)
        requires
            old(self).wf(),
        ensures
            final(self).wf(),
            final(self)@ == old(self)@.insert(name@, tensor),
    {
        let ghost before = self.entries@;
        match self.position(name.as_str()) {
            Some(i) => {
                let ghost key = self.entries@[i as int].0@;
                self.entries.set(i, (name, tensor));
                proof {
                    let now = self.entries@;
                    assert(distinct_names(now)) by {
                        assert forall|a: int, b: int| 0 <= a < b < now.len() implies #[trigger] now[a].0@
                            != #[trigger] now[b].0@ by {
                            assert(before[a].0@ != before[b].0@);
                        }
                    }
                    lemma_by_name(before);
                    lemma_by_name(now);
                    let want = by_name(before).insert(key, tensor);
                    assert(by_name(now) =~= want) by {
                        assert forall|k: Seq<char>| by_name(now).contains_key(k)
                            == want.contains_key(k) by {
                            if by_name(now).contains_key(k) {
                                let a = choose|a: int|
                                    0 <= a < now.len() && (#[trigger] now[a]).0@ == k;
                                assert(before[a].0@ == k);
                            }
                            if by_name(before).contains_key(k) {
                                let a = choose|a: int|
                                    0 <= a < before.len() && (#[trigger] before[a]).0@ == k;
                                assert(now[a].0@ == k);
                            }
                            assert(now[i as int].0@ == key);
                        }
                        assert forall|k: Seq<char>| by_name(now).contains_key(k) implies by_name(
                            now,
                        )[k] == want[k] by {
                            let a = choose|a: int|
                                0 <= a < now.len() && (#[trigger] now[a]).0@ == k;
                            assert(before[a].0@ == k);
                            if a != i {
                                if a < i {
                                    assert(now[a].0@ != now[i as int].0@);
                                } else {
                                    assert(now[i as int].0@ != now[a].0@);
                                }
                            }
                        }
                    }
                }
            },
            None => {
                self.entries.push((name, tensor));
                proof {
                    let now = self.entries@;
                    assert(now.drop_last() =~= before);
                    assert forall|a: int, b: int| 0 <= a < b < now.len() implies #[trigger] now[a].0@
                        != #[trigger] now[b].0@ by {
                        assert(before[a] == now[a]);
                        if b < before.len() {
                            assert(before[b] == now[b]);
                            assert(before[a].0@ != before[b].0@);
                        }
                    }
                }
            },
        }
    }

    /// The tensor of a name, if it is there.
    pub fn get(&self, name: &str) -> (r: Option<Tensor>)
        requires
            self.wf(),
        ensures
            r == if self@.contains_key(name@) {
                Some(self@[name@])
            } else {
                None
            },
    {
        match self.position(name) {
            Some(i) => Some(copy(&self.entries[i].1)),
            None => None,
        }
    }

    /// Whether a name starts with a prefix.
    pub fn has_prefix(&self, prefix: &str) -> (r: bool)
        requires
            self.wf(),
        ensures
            r == has_under(self@, prefix@),
    {
        proof {
            lemma_by_name(self.entries@);
        }
        let n = self.entries.len();
        let mut i: usize = 0;
        while i < n
            invariant
                i <= n,
                n == self.entries@.len(),
                forall|j: int|
                    0 <= j < i ==> !prefix@.is_prefix_of((#[trigger] self.entries@[j]).0@),
                forall|j: int|
                    0 <= j < self.entries@.len() ==> self@.contains_key(
                        (#[trigger] self.entries@[j]).0@,
                    ),
            decreases n - i,
        {
            if has_prefix(self.entries[i].0.as_str(), prefix) {
                assert(self@.contains_key(self.entries@[i as int].0@));
                return true;
            }
            i = i + 1;
        }
        false
    }

    /// Filter weights by prefix, removing the prefix from names.
    pub fn filter_weights(&self, prefix: &str) -> (r: Weights)
        requires
            self.wf(),
        ensures
            r.wf(),
            r@ == under_prefix(self@, prefix@),
    {
        let m = prefix.unicode_len();
        let n = self.entries.len();
        let mut out: Vec<(String, Tensor)> = Vec::new();
        let mut i: usize = 0;
        let ghost all = self.entries@;
        assert(by_name(out@) =~= under_prefix(by_name(all.take(0)), prefix@));
        while i < n
            invariant
                i <= n,
                n == self.entries@.len(),
                m == prefix@.len(),
                all == self.entries@,
                distinct_names(all),
                distinct_names(out@),
                by_name(out@) == under_prefix(by_name(all.take(i as int)), prefix@),
            decreases n - i,
        {
            let key = self.entries[i].0.as_str();
            let ghost before = out@;
            let ghost seen = all.take(i as int);
            proof {
                assert(all.take(i + 1).drop_last() =~= seen);
                assert(all.take(i + 1).last() == all[i as int]);
                lemma_under_insert(by_name(seen), prefix@, key@, all[i as int].1);
            }
            if has_prefix(key, prefix) {
                let len = key.unicode_len();
                let rest = key.substring_char(m, len).to_owned();
                out.push((rest, copy(&self.entries[i].1)));
                proof {
                    assert(rest@ =~= key@.skip(m as int));
                    assert(key@ =~= prefix@ + rest@);
                    assert(out@.drop_last() =~= before);
                    lemma_by_name(before);
                    lemma_taken(all, i as int);
                    assert(!by_name(before).contains_key(rest@));
                    assert forall|a: int, b: int| 0 <= a < b < out@.len() implies #[trigger] out@[a].0@
                        != #[trigger] out@[b].0@ by {
                        assert(out@[a] == before[a]);
                        assert(by_name(before).contains_key(before[a].0@));
                        if b < before.len() {
                            assert(out@[b] == before[b]);
                            assert(before[a].0@ != before[b].0@);
                        }
                    }
                }
            }
            i = i + 1;
        }
        assert(all.take(n as int) =~= all);
        Weights { entries: out }
    }

    /// Detect the talker's configuration from the weights: the larger one where
    /// they have its width.
    pub fn detect_talker_config(&self) -> (r: Result<TalkerChoice, TtsError>)
        requires
            self.wf(),
        ensures
            (r matches Err(e) && e is NoTalkerNorm) <==> !self@.contains_key(norm_name()),
            (r matches Err(e) && e is BadShape) <==> self@.contains_key(norm_name())
                && tensor_dims(self@[norm_name()]).len() == 0,
            r matches Err(e) ==> e is NoTalkerNorm || e is BadShape,
            r matches Ok(c) ==> c == if tensor_dims(self@[norm_name()])[0] == LARGE_HIDDEN_SIZE {
                TalkerChoice::CustomVoice
            } else {
                TalkerChoice::Default
            },
    {
        match self.get("talker.model.norm.weight") {
            Some(t) => {
                let d = dims(&t);
                if d.len() == 0 {
                    return Err(TtsError::BadShape);
                }
                if d[0] == LARGE_HIDDEN_SIZE {
                    Ok(TalkerChoice::CustomVoice)
                } else {
                    Ok(TalkerChoice::Default)
                }
            },
            None => Err(TtsError::NoTalkerNorm),
        }
    }
}

/// A name does not occur before its place.
proof fn lemma_taken(entries: Seq<(String, Tensor)>, i: int)
    requires
        distinct_names(entries),
        0 <= i < entries.len(),
    ensures
        !by_name(entries.take(i)).contains_key(entries[i].0@),
{
    let seen = entries.take(i);
    assert forall|a: int, b: int| 0 <= a < b < seen.len() implies #[trigger] seen[a].0@
        != #[trigger] seen[b].0@ by {
        assert(entries[a].0@ != entries[b].0@);
    }
    lemma_by_name(seen);
    if by_name(seen).contains_key(entries[i].0@) {
        let a = choose|a: int| 0 <= a < seen.len() && (#[trigger] seen[a]).0@ == entries[i].0@;
        assert(entries[a].0@ != entries[i].0@);
    }
}

/// What stands under a prefix when one more tensor is there.
proof fn lemma_under_insert(
    weights: Map<Seq<char>, Tensor>,
    prefix: Seq<char>,
    name: Seq<char>,
    tensor: Tensor,
)
    ensures
        under_prefix(weights.insert(name, tensor), prefix) == if prefix.is_prefix_of(name) {
            under_prefix(weights, prefix).insert(name.skip(prefix.len() as int), tensor)
        } else {
            under_prefix(weights, prefix)
        },
{
    let now = under_prefix(weights.insert(name, tensor), prefix);
    let before = under_prefix(weights, prefix);
    if prefix.is_prefix_of(name) {
        let rest = name.skip(prefix.len() as int);
        assert(name =~= prefix + rest);
        assert forall|k: Seq<char>| prefix + k == name implies k == rest by {
            assert(k =~= (prefix + k).skip(prefix.len() as int));
        }
        assert(now =~= before.insert(rest, tensor));
    } else {
        assert forall|k: Seq<char>| #[trigger] (prefix + k) != name by {
            assert(prefix =~= (prefix + k).subrange(0, prefix.len() as int));
        }
        assert(now =~= before);
    }
}

/// The code predictor's configuration: that of the file where there is one, else
/// the default one, widened where the talker is wider.
pub fn choose_predictor(parsed: bool, talker_hidden: usize) -> (r: PredictorChoice)
    ensures
        r == if parsed {
            PredictorChoice::Parsed
        } else if talker_hidden != PREDICTOR_HIDDEN_SIZE {
            PredictorChoice::Wide(talker_hidden)
        } else {
            PredictorChoice::Default
        },
{
    if parsed {
        PredictorChoice::Parsed
    } else if talker_hidden != PREDICTOR_HIDDEN_SIZE {
        PredictorChoice::Wide(talker_hidden)
    } else {
        PredictorChoice::Default
    }
}

} // verus!
