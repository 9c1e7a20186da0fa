//! The text that is fused with the frames, position by position.
use crate::error::TtsError;
use crate::grid::DType;
use crate::ops::{concat2, has_room};
use crate::request::{Reply, Request};
use crate::tensor::{dims, grid, tensor_dims, tensor_dtype, tensor_location};
use candle_core::Tensor;
use vstd::prelude::*;

verus! {

/// Builds the trailing text of a prompt: all tokens but the first, and the
/// embedding that ends a text.
pub enum TrailingText {
    /// Waits for the tokens but the first, projected.
    Projecting,
    /// Waits for the end of the text.
    Ending(Option<Tensor>),
    /// Waits for the embedding of no text.
    Padding { trailing: Tensor, len: usize },
}

/// What is wanted next.
pub enum TrailingTurn {
    /// A reply of the model.
    Ask(TrailingText, Request),
    /// Nothing: this is the text, the number of its positions, and what comes
    /// when it is used up.
    Built { trailing: Tensor, len: usize, pad: Tensor },
}

/// That `whole` is the projected text, if there is any, followed by its end.
pub open spec fn is_trailing(projected: Option<Tensor>, end: Tensor, whole: Tensor) -> bool {
    match projected {
        Some(p) => grid(p).fits(grid(end), 1) && grid(whole) == grid(p).join(grid(end), 1),
        None => whole == end,
    }
}

impl TrailingText {
    /// That building starts so: where there is more than one token, the others
    /// are projected first.
    pub open spec fn starts(ids: Seq<u32>, r: (TrailingText, Request)) -> bool {
        if ids.len() > 1 {
            &&& r.0 == TrailingText::Projecting
            &&& r.1 matches Request::ProjectText(rest)
            &&& rest@ == ids.skip(1)
        } else {
            r == (TrailingText::Ending(None), Request::TtsEos)
        }
    }

    /// What a reply leads to.
    pub open spec fn steps(self, reply: Reply, turn: TrailingTurn) -> bool {
        match (self, reply) {
            (TrailingText::Projecting, Reply::Tensor(projected)) => {
                turn == TrailingTurn::Ask(TrailingText::Ending(Some(projected)), Request::TtsEos)
            },
            (TrailingText::Ending(projected), Reply::Tensor(end)) => {
                &&& turn matches TrailingTurn::Ask(TrailingText::Padding { trailing, len }, ask)
                &&& ask == Request::TtsPad
                &&& is_trailing(projected, end, trailing)
                &&& tensor_dims(trailing).len() > 1
                &&& len == tensor_dims(trailing)[1]
            },
            (TrailingText::Padding { trailing, len }, Reply::Tensor(pad)) => {
                turn == (TrailingTurn::Built { trailing, len, pad })
            },
            _ => false,
        }
    }

    /// Whether a reply can be taken up on the CPU.
    pub open spec fn accepts(self, reply: Reply) -> bool {
        &&& reply is Tensor
        &&& match (self, reply) {
            (TrailingText::Ending(Some(p)), Reply::Tensor(end)) => {
                &&& grid(p).fits(grid(end), 1)
                &&& has_room(seq![grid(p), grid(end)], 1)
                &&& tensor_location(p) is Cpu
                &&& tensor_dtype(p) != DType::Other
            },
            (TrailingText::Ending(None), Reply::Tensor(end)) => tensor_dims(end).len() > 1,
            _ => true,
        }
    }

    /// Start building the trailing text of these tokens.
    pub fn start(ids: &Vec<u32>) -> (r: (TrailingText, Request))
        ensures
            TrailingText::starts(ids@, r),
    {
        if ids.len() > 1 {
            let mut rest: Vec<u32> = Vec::new();
            let mut i: usize = 1;
            while i < ids.len()
                invariant
                    1 <= i <= ids@.len(),
                    rest@ == ids@.subrange(1, i as int),
                decreases ids@.len() - i,
            {
                rest.push(ids[i]);
                assert(ids@.subrange(1, i + 1) =~= ids@.subrange(1, i as int).push(ids@[i as int]));
                i = i + 1;
            }
            assert(ids@.subrange(1, ids@.len() as int) =~= ids@.skip(1));
            (TrailingText::Projecting, Request::ProjectText(rest))
        } else {
            (TrailingText::Ending(None), Request::TtsEos)
        }
    }

    /// Take up a reply.
    pub fn step(self, reply: Reply) -> (r: Result<TrailingTurn, TtsError>)
        ensures
            r matches Ok(turn) ==> self.steps(reply, turn),
            (r matches Err(e) && e is UnexpectedReply) <==> !(reply is Tensor),
            r matches Err(e) ==> e is UnexpectedReply || e.is_computing() || e is BadShape,
            self.accepts(reply) ==> r is Ok,
    {
        match (self, reply) {
            (TrailingText::Projecting, Reply::Tensor(projected)) => Ok(
                TrailingTurn::Ask(TrailingText::Ending(Some(projected)), Request::TtsEos),
            ),
            (TrailingText::Ending(projected), Reply::Tensor(end)) => {
                let trailing = match &projected {
                    Some(p) => match concat2(p, &end, 1) {
                        Ok(t) => t,
                        Err(e) => {
                            return Err(e);
                        },
                    },
                    None => end,
                };
                let d = dims(&trailing);
                if d.len() <= 1 {
                    return Err(TtsError::BadShape);
                }
                Ok(TrailingTurn::Ask(TrailingText::Padding { trailing, len: d[1] }, Request::TtsPad))
            },
            (TrailingText::Padding { trailing, len }, Reply::Tensor(pad)) => Ok(
                TrailingTurn::Built { trailing, len, pad },
            ),
            _ => Err(TtsError::UnexpectedReply),
        }
    }
}

} // verus!
