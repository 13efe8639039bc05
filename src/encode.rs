use vstd::prelude::*;

use crate::error::BridgeError;

verus! {

/// A search result in host form: the parameter vector as handed in, and the
/// decomposition labels narrowed to bytes.
pub struct EncodedResult<P> {
    pub params: Vec<P>,
    pub decomposition: Vec<u8>,
}

/// Every label fits in eight bits.
pub open spec fn all_labels_fit(labels: Seq<usize>) -> bool {
    forall|m: int| 0 <= m < labels.len() ==> labels[m] <= u8::MAX
}

/// `i` is the first position whose label does not fit in eight bits.
pub open spec fn is_first_oversized(labels: Seq<usize>, i: int) -> bool {
    &&& 0 <= i < labels.len()
    &&& labels[i] > u8::MAX
    &&& forall|m: int| 0 <= m < i ==> labels[m] <= u8::MAX
}

/// The labels as bytes; exact where every label fits.
pub open spec fn narrowed(labels: Seq<usize>) -> Seq<u8> {
    labels.map_values(|x: usize| x as u8)
}

/// What encoding a decomposition yields: the count is checked first, then each
/// label in order.
pub open spec fn decomposition_outcome(labels: Seq<usize>) -> Result<Seq<u8>, BridgeError> {
    if labels.len() > u32::MAX {
        Err(BridgeError::CountOverflow { len: labels.len() as usize })
    } else if all_labels_fit(labels) {
        Ok(narrowed(labels))
    } else {
        let i = choose|i: int| is_first_oversized(labels, i);
        Err(BridgeError::LabelOverflow { index: i as usize, value: labels[i] })
    }
}

/// An encoded decomposition seen through its view.
pub open spec fn bytes_result_view(r: Result<Vec<u8>, BridgeError>) -> Result<Seq<u8>, BridgeError> {
    match r {
        Ok(v) => Ok(v@),
        Err(e) => Err(e),
    }
}

/// The first oversized position is unique.
pub proof fn lemma_first_oversized_unique(labels: Seq<usize>, i: int, j: int)
    requires
        is_first_oversized(labels, i),
        is_first_oversized(labels, j),
    ensures
        i == j,
{
    if i < j {
        assert(labels[i] <= u8::MAX);
    } else if j < i {
        assert(labels[j] <= u8::MAX);
    }
}

/// Converts a label count to the host's 32-bit count.
pub fn encode_count(len: usize) -> (r: Result<u32, BridgeError>)
    ensures
        len <= u32::MAX ==> r == Ok::<u32, BridgeError>(len as u32),
        len > u32::MAX ==> r == Err::<u32, BridgeError>(BridgeError::CountOverflow { len }),
{
    if len <= u32::MAX as usize {
        Ok(len as u32)
    } else {
        Err(BridgeError::CountOverflow { len })
    }
}

/// Narrows a decomposition to bytes. The count is checked before the output
/// buffer is allocated; a label above 255 is reported with its position and
/// never truncated.
pub fn encode_decomposition(labels: &Vec<usize>) -> (r: Result<Vec<u8>, BridgeError>)
    ensures
        bytes_result_view(r) == decomposition_outcome(labels@),
{
    let count = match encode_count(labels.len()) {
        Ok(c) => c,
        Err(e) => return Err(e),
    };
    let mut out: Vec<u8> = Vec::with_capacity(count as usize);
    let mut i: usize = 0;
    while i < labels.len()
        invariant
            labels@.len() <= u32::MAX,
            i <= labels@.len(),
            forall|m: int| 0 <= m < i ==> labels@[m] <= u8::MAX,
            out@ == narrowed(labels@.take(i as int)),
        decreases labels@.len() - i,
    {
        let label = labels[i];
        if label > u8::MAX as usize {
            proof {
                assert(is_first_oversized(labels@, i as int));
                let c = choose|c: int| is_first_oversized(labels@, c);
                lemma_first_oversized_unique(labels@, i as int, c);
            }
            return Err(BridgeError::LabelOverflow { index: i, value: label });
        }
        out.push(label as u8);
        i = i + 1;
        proof {
            assert(out@ =~= narrowed(labels@.take(i as int)));
        }
    }
    proof {
        assert(labels@.take(i as int) =~= labels@);
    }
    Ok(out)
}

/// Encodes one search result: the parameters pass through unchanged, the
/// decomposition is narrowed as `encode_decomposition` does.
pub fn encode_result<P>(params: Vec<P>, labels: &Vec<usize>) -> (r: Result<EncodedResult<P>, BridgeError>)
    ensures
        match decomposition_outcome(labels@) {
            Ok(bytes) => r is Ok && r->Ok_0.params@ == params@ && r->Ok_0.decomposition@ == bytes,
            Err(e) => r == Err::<EncodedResult<P>, BridgeError>(e),
        },
{
    match encode_decomposition(labels) {
        Ok(decomposition) => Ok(EncodedResult { params, decomposition }),
        Err(e) => Err(e),
    }
}

} // verus!
