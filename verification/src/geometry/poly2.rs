//! Rules for the vertices of a polygon that hold whatever the coordinates are.

use crate::geometry::lattice::GeometryError;
use vstd::prelude::*;
use vstd::std_specs::cmp::PartialEqSpec;

verus! {

/// The sense in which the boundary of a polygon turns.
#[derive(Debug, PartialEq, Eq, Clone, Copy)]
pub enum AngularDirection {
    Clockwise,
    CounterClockwise,
}

/// The vertices without those that equal the vertex just before them in the list.
pub open spec fn without_repeats<T: PartialEq>(vertices: Seq<T>) -> Seq<T>
    decreases vertices.len(),
{
    if vertices.len() <= 1 {
        vertices
    } else {
        let kept = without_repeats(vertices.drop_last());
        if vertices.last().eq_spec(&vertices[vertices.len() - 2]) {
            kept
        } else {
            kept.push(vertices.last())
        }
    }
}

/// The vertices of the polygon that a list of points gives: the points without those
/// that repeat the point before them. Fewer than three points, given or left, give no
/// polygon.
pub fn polygon_vertices<T: PartialEq + Copy>(vertices: &Vec<T>) -> (result: Result<
    Vec<T>,
    GeometryError,
>)
    ensures
        result is Err ==> result == Err::<Vec<T>, GeometryError>(GeometryError::DegeneratePolygon),
        vertices@.len() <= 2 ==> result is Err,
        T::obeys_eq_spec() ==> (result is Err <==> without_repeats(vertices@).len() <= 2),
        T::obeys_eq_spec() ==> (result matches Ok(kept) ==> kept@ == without_repeats(vertices@)),
{
    if vertices.len() <= 2 {
        proof {
            lemma_without_repeats_len(vertices@);
        }
        return Err(GeometryError::DegeneratePolygon);
    }
    let mut kept: Vec<T> = Vec::new();
    kept.push(vertices[0]);
    assert(T::obeys_eq_spec() ==> kept@ =~= without_repeats(vertices@.take(1)));
    let mut i: usize = 1;
    while i < vertices.len()
        invariant
            1 <= i <= vertices.len(),
            T::obeys_eq_spec() ==> kept@ == without_repeats(vertices@.take(i as int)),
        decreases vertices.len() - i,
    {
        let ghost next = vertices@.take(i + 1);
        assert(next.drop_last() =~= vertices@.take(i as int));
        assert(next.last() == vertices@[i as int]);
        assert(next[next.len() - 2] == vertices@[i - 1]);
        if vertices[i] != vertices[i - 1] {
            kept.push(vertices[i]);
        }
        i += 1;
    }
    assert(vertices@.take(i as int) =~= vertices@);
    if kept.len() <= 2 {
        return Err(GeometryError::DegeneratePolygon);
    }
    Ok(kept)
}

/// Leaving out repeats never makes a list longer.
pub proof fn lemma_without_repeats_len<T: PartialEq>(vertices: Seq<T>)
    ensures
        without_repeats(vertices).len() <= vertices.len(),
    decreases vertices.len(),
{
    if vertices.len() > 1 {
        lemma_without_repeats_len(vertices.drop_last());
    }
}

/// What stands against a regular polygon of `vertex_count` vertices, given whether its
/// side length is positive: the count is looked at first, then the side length, then
/// whether the vertices are enough for a polygon.
pub open spec fn regular_failure(vertex_count: int, side_is_positive: bool) -> Option<
    GeometryError,
> {
    if vertex_count <= 0 {
        Some(GeometryError::NonPositiveVertexCount)
    } else if !side_is_positive {
        Some(GeometryError::NonPositiveSideLength)
    } else if vertex_count <= 2 {
        Some(GeometryError::DegeneratePolygon)
    } else {
        None
    }
}

/// Whether a regular polygon of `vertex_count` vertices can be built, given whether
/// its side length is positive.
pub fn check_regular(vertex_count: isize, side_is_positive: bool) -> (result: Result<
    (),
    GeometryError,
>)
    ensures
        result == (match regular_failure(vertex_count as int, side_is_positive) {
            Some(error) => Err::<(), GeometryError>(error),
            None => Ok::<(), GeometryError>(()),
        }),
{
    if vertex_count <= 0 {
        Err(GeometryError::NonPositiveVertexCount)
    } else if !side_is_positive {
        Err(GeometryError::NonPositiveSideLength)
    } else if vertex_count <= 2 {
        Err(GeometryError::DegeneratePolygon)
    } else {
        Ok(())
    }
}

} // verus!
