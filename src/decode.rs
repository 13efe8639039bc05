use vstd::prelude::*;

use crate::error::BridgeError;

verus! {

/// One polytope: its vertices in order, each an ordered list of coordinates.
pub struct Polytope<T> {
    pub vertices: Vec<Vec<T>>,
}

/// The vertices as coordinate sequences.
pub open spec fn vertices_view<T>(vs: Seq<Vec<T>>) -> Seq<Seq<T>> {
    vs.map_values(|v: Vec<T>| v@)
}

impl<T> View for Polytope<T> {
    type V = Seq<Seq<T>>;

    open spec fn view(&self) -> Seq<Seq<T>> {
        vertices_view(self.vertices@)
    }
}

/// The collection as nested sequences: polytope, then vertex, then coordinate.
pub open spec fn collection_view<T>(polys: Seq<Polytope<T>>) -> Seq<Seq<Seq<T>>> {
    polys.map_values(|p: Polytope<T>| p@)
}

/// Length that a buffer of the given shape must have.
pub open spec fn expected_len(num_polytopes: usize, num_vertices: usize, dim: usize) -> int {
    num_polytopes * num_vertices * dim
}

/// Position of coordinate `k` of vertex `j` of polytope `i` in the row-major buffer.
pub open spec fn flat_index(i: int, j: int, k: int, num_vertices: usize, dim: usize) -> int {
    (i * num_vertices + j) * dim + k
}

/// The collection that a buffer of the right length describes.
pub open spec fn decoded<T>(data: Seq<T>, num_polytopes: usize, num_vertices: usize, dim: usize)
    -> Seq<Seq<Seq<T>>> {
    Seq::new(
        num_polytopes as nat,
        |i: int|
            Seq::new(
                num_vertices as nat,
                |j: int| Seq::new(dim as nat, |k: int| data[flat_index(i, j, k, num_vertices, dim)]),
            ),
    )
}

/// What decoding yields: the collection, or a shape mismatch.
pub open spec fn decode_outcome<T>(data: Seq<T>, num_polytopes: usize, num_vertices: usize, dim: usize)
    -> Result<Seq<Seq<Seq<T>>>, BridgeError> {
    if data.len() == expected_len(num_polytopes, num_vertices, dim) {
        Ok(decoded(data, num_polytopes, num_vertices, dim))
    } else {
        Err(BridgeError::InputShapeMismatch { num_polytopes, num_vertices, dim, len: data.len() as usize })
    }
}

/// A decode result seen through the views.
pub open spec fn decode_result_view<T>(r: Result<Vec<Polytope<T>>, BridgeError>)
    -> Result<Seq<Seq<Seq<T>>>, BridgeError> {
    match r {
        Ok(polys) => Ok(collection_view(polys@)),
        Err(e) => Err(e),
    }
}

proof fn lemma_vertices_view_push<T>(vs: Seq<Vec<T>>, v: Vec<T>)
    ensures
        vertices_view(vs.push(v)) == vertices_view(vs).push(v@),
{
    assert(vertices_view(vs.push(v)) =~= vertices_view(vs).push(v@));
}

proof fn lemma_collection_view_push<T>(ps: Seq<Polytope<T>>, p: Polytope<T>)
    ensures
        collection_view(ps.push(p)) == collection_view(ps).push(p@),
{
    assert(collection_view(ps.push(p)) =~= collection_view(ps).push(p@));
}

proof fn lemma_flat_index_in_bounds(i: int, j: int, k: int, np: usize, nv: usize, dim: usize)
    requires
        0 <= i < np,
        0 <= j < nv,
        0 <= k < dim,
    ensures
        0 <= i * nv <= i * nv + j < np * nv,
        i * nv + j <= (i * nv + j) * dim <= flat_index(i, j, k, nv, dim) < expected_len(np, nv, dim),
{
    assert(0 <= i * nv) by (nonlinear_arith)
        requires 0 <= i, 0 <= nv;
    assert(i * nv + j < np * nv) by (nonlinear_arith)
        requires 0 <= i < np, 0 <= j < nv;
    assert(i * nv + j <= (i * nv + j) * dim) by (nonlinear_arith)
        requires 0 <= i * nv + j, 1 <= dim;
    assert((i * nv + j) * dim + k < np * nv * dim) by (nonlinear_arith)
        requires 0 <= i * nv + j < np * nv, 0 <= k < dim;
}

/// Rebuilds the polytope collection from a flat row-major buffer laid out as
/// `[polytope][vertex][coordinate]`. A buffer whose length does not match the
/// shape is rejected before anything is read or allocated.
pub fn decode_polytopes<T: Copy>(data: &Vec<T>, num_polytopes: usize, num_vertices: usize, dim: usize)
    -> (r: Result<Vec<Polytope<T>>, BridgeError>)
    ensures
        decode_result_view(r) == decode_outcome(data@, num_polytopes, num_vertices, dim),
{
    let len = data.len();
    let shape_ok = if num_polytopes == 0 || num_vertices == 0 || dim == 0 {
        proof {
            assert(expected_len(num_polytopes, num_vertices, dim) == 0) by (nonlinear_arith)
                requires num_polytopes == 0 || num_vertices == 0 || dim == 0;
        }
        len == 0
    } else {
        match num_polytopes.checked_mul(num_vertices) {
            Some(pv) => match pv.checked_mul(dim) {
                Some(n) => n == len,
                None => false,
            },
            None => {
                proof {
                    assert(expected_len(num_polytopes, num_vertices, dim) >= num_polytopes * num_vertices) by (nonlinear_arith)
                        requires num_polytopes * num_vertices >= 0, dim >= 1;
                }
                false
            },
        }
    };
    if !shape_ok {
        return Err(BridgeError::InputShapeMismatch { num_polytopes, num_vertices, dim, len });
    }
    let ghost target = decoded(data@, num_polytopes, num_vertices, dim);
    let mut polys: Vec<Polytope<T>> = Vec::with_capacity(num_polytopes);
    let mut i: usize = 0;
    while i < num_polytopes
        invariant
            data@.len() == expected_len(num_polytopes, num_vertices, dim),
            len == data@.len(),
            target == decoded(data@, num_polytopes, num_vertices, dim),
            i <= num_polytopes,
            collection_view(polys@) == target.take(i as int),
        decreases num_polytopes - i,
    {
        let mut vertices: Vec<Vec<T>> = Vec::with_capacity(num_vertices);
        let mut j: usize = 0;
        while j < num_vertices
            invariant
                data@.len() == expected_len(num_polytopes, num_vertices, dim),
                len == data@.len(),
                target == decoded(data@, num_polytopes, num_vertices, dim),
                i < num_polytopes,
                j <= num_vertices,
                vertices_view(vertices@) == target[i as int].take(j as int),
            decreases num_vertices - j,
        {
            let mut coords: Vec<T> = Vec::with_capacity(dim);
            let mut k: usize = 0;
            while k < dim
                invariant
                    data@.len() == expected_len(num_polytopes, num_vertices, dim),
                    len == data@.len(),
                    target == decoded(data@, num_polytopes, num_vertices, dim),
                    i < num_polytopes,
                    j < num_vertices,
                    k <= dim,
                    coords@ == target[i as int][j as int].take(k as int),
                decreases dim - k,
            {
                proof {
                    lemma_flat_index_in_bounds(i as int, j as int, k as int, num_polytopes, num_vertices, dim);
                }
                let idx = (i * num_vertices + j) * dim + k;
                coords.push(data[idx]);
                k = k + 1;
                proof {
                    assert(coords@ =~= target[i as int][j as int].take(k as int));
                }
            }
            proof {
                assert(coords@ =~= target[i as int][j as int]);
            }
            let ghost before = vertices@;
            let ghost row = coords@;
            vertices.push(coords);
            j = j + 1;
            proof {
                lemma_vertices_view_push(before, vertices@.last());
                assert(target[i as int].take(j - 1).push(row) =~= target[i as int].take(j as int));
            }
        }
        proof {
            assert(vertices_view(vertices@) =~= target[i as int]);
        }
        let ghost before = polys@;
        polys.push(Polytope { vertices });
        i = i + 1;
        proof {
            lemma_collection_view_push(before, polys@.last());
            assert(target.take(i - 1).push(target[i - 1]) =~= target.take(i as int));
        }
    }
    proof {
        assert(target.take(num_polytopes as int) =~= target);
    }
    Ok(polys)
}

/// Decoding is a function of the buffer and the shape: two decodings of the
/// same buffer with the same parameters agree, down to every coordinate.
pub proof fn lemma_decode_idempotent<T>(
    data: Seq<T>,
    num_polytopes: usize,
    num_vertices: usize,
    dim: usize,
    first: Result<Vec<Polytope<T>>, BridgeError>,
    second: Result<Vec<Polytope<T>>, BridgeError>,
)
    requires
        decode_result_view(first) == decode_outcome(data, num_polytopes, num_vertices, dim),
        decode_result_view(second) == decode_outcome(data, num_polytopes, num_vertices, dim),
    ensures
        decode_result_view(first) == decode_result_view(second),
        first is Ok <==> second is Ok,
        (first is Ok && second is Ok) ==> forall|i: int, j: int, k: int|
            0 <= i < num_polytopes && 0 <= j < num_vertices && 0 <= k < dim
                ==> #[trigger] first->Ok_0@[i]@[j][k] == second->Ok_0@[i]@[j][k],
{
    if first is Ok && second is Ok {
        let a = first->Ok_0;
        let b = second->Ok_0;
        assert forall|i: int, j: int, k: int|
            0 <= i < num_polytopes && 0 <= j < num_vertices && 0 <= k < dim
                implies #[trigger] a@[i]@[j][k] == b@[i]@[j][k] by {
            let target = decoded(data, num_polytopes, num_vertices, dim);
            assert(collection_view(a@) == target);
            assert(collection_view(b@) == target);
            assert(a@.len() == target.len());
            assert(collection_view(a@)[i] == a@[i]@);
            assert(collection_view(b@)[i] == b@[i]@);
            assert(target[i][j][k] == data[flat_index(i, j, k, num_vertices, dim)]);
        }
    }
}

} // verus!
