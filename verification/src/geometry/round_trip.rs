//! Laws of the notation: the text of a configuration reads back as the same
//! configuration, and only such configurations are ever read.

use crate::geometry::notation::{
    configuration_of, configuration_text, number_texts, phase_texts, phases_of,
    seed_and_phases_of, seed_and_phases_text, shapes_of, source_of, source_text, strip_ends,
    transformation_of, transformation_text, transformation_texts, transformations_of,
    vertex_of, vertex_text, ConfigurationModel, ParseFailure, Transformation,
    TransformationSource, VertexType,
};
use crate::geometry::separated::{
    free_of, join, lemma_join_first, lemma_join_free_of, lemma_split_join, lemma_split_len,
    split,
};
use crate::numerics::decimal::{
    is_digit, lemma_number_text_value, lemma_parse_number_text, number_text, parse_number,
    unsigned_part,
};
use vstd::prelude::*;

verus! {

/// The text of a number holds digits only.
pub proof fn lemma_number_text_free_of(n: nat, c: char)
    requires
        !is_digit(c),
    ensures
        free_of(number_text(n), c),
{
    lemma_number_text_value(n);
    let text = number_text(n);
    assert forall|i: int| 0 <= i < text.len() implies #[trigger] text[i] != c by {
        assert(is_digit(text[i]));
    }
}

/// The texts of a list of numbers are free of every character that is no digit.
proof fn lemma_number_texts_free_of(numbers: Seq<usize>, c: char)
    requires
        !is_digit(c),
    ensures
        forall|i: int|
            0 <= i < number_texts(numbers).len() ==> free_of(#[trigger] number_texts(numbers)[i], c),
{
    assert forall|i: int| 0 <= i < number_texts(numbers).len() implies free_of(
        #[trigger] number_texts(numbers)[i],
        c,
    ) by {
        lemma_number_text_free_of(numbers[i] as nat, c);
    }
}

/// The texts of a list of numbers read back as the list.
proof fn lemma_shapes_of_texts(shapes: Seq<usize>)
    ensures
        shapes_of(number_texts(shapes)) == Ok::<Seq<usize>, ParseFailure>(shapes),
    decreases shapes.len(),
{
    let tokens = number_texts(shapes);
    if shapes.len() == 0 {
        assert(shapes =~= Seq::<usize>::empty());
    } else {
        lemma_shapes_of_texts(shapes.drop_last());
        assert(tokens.drop_last() =~= number_texts(shapes.drop_last()));
        lemma_parse_number_text(shapes.last());
        assert(tokens.last() == number_text(shapes.last() as nat));
        assert(shapes.drop_last().push(shapes.last()) =~= shapes);
    }
}

/// The text of a non-empty phase has none of the characters that separate phases and
/// transformations, and its tokens read back as the phase.
proof fn lemma_phase_text(shapes: Seq<usize>)
    requires
        shapes.len() >= 1,
    ensures
        free_of(join(number_texts(shapes), ','), '-'),
        free_of(join(number_texts(shapes), ','), '/'),
        shapes_of(split(join(number_texts(shapes), ','), ',')) == Ok::<Seq<usize>, ParseFailure>(
            shapes,
        ),
{
    let tokens = number_texts(shapes);
    lemma_number_texts_free_of(shapes, ',');
    lemma_number_texts_free_of(shapes, '-');
    lemma_number_texts_free_of(shapes, '/');
    lemma_join_free_of(tokens, ',', '-');
    lemma_join_free_of(tokens, ',', '/');
    lemma_split_join(tokens, ',');
    lemma_shapes_of_texts(shapes);
}

/// The texts of non-empty phases read back as the phases.
proof fn lemma_phases_of_texts(phases: Seq<Seq<usize>>)
    requires
        forall|i: int| 0 <= i < phases.len() ==> (#[trigger] phases[i]).len() >= 1,
    ensures
        phases_of(phase_texts(phases)) == Ok::<Seq<Seq<usize>>, ParseFailure>(phases),
        forall|i: int|
            0 <= i < phase_texts(phases).len() ==> free_of(#[trigger] phase_texts(phases)[i], '-'),
        forall|i: int|
            0 <= i < phase_texts(phases).len() ==> free_of(#[trigger] phase_texts(phases)[i], '/'),
    decreases phases.len(),
{
    let segments = phase_texts(phases);
    if phases.len() == 0 {
        assert(phases =~= Seq::<Seq<usize>>::empty());
    } else {
        let init = phases.drop_last();
        assert forall|i: int| 0 <= i < init.len() implies (#[trigger] init[i]).len() >= 1 by {
            assert(init[i] == phases[i]);
        }
        lemma_phases_of_texts(init);
        assert(segments.drop_last() =~= phase_texts(init));
        assert(phases[phases.len() - 1].len() >= 1);
        lemma_phase_text(phases.last());
        assert(segments.last() == join(number_texts(phases.last()), ','));
        assert(init.push(phases.last()) =~= phases);
        assert forall|i: int| 0 <= i < segments.len() implies free_of(
            #[trigger] segments[i],
            '-',
        ) && free_of(segments[i], '/') by {
            if i < init.len() {
                assert(segments[i] == phase_texts(init)[i]);
            }
        }
    }
}

/// The text of the seed and the phases has no `/` and reads back as the seed and the
/// phases.
proof fn lemma_seed_and_phases(seed: usize, phases: Seq<Seq<usize>>)
    requires
        forall|i: int| 0 <= i < phases.len() ==> (#[trigger] phases[i]).len() >= 1,
    ensures
        free_of(seed_and_phases_text(seed, phases), '/'),
        seed_and_phases_of(seed_and_phases_text(seed, phases)) == Ok::<
            (usize, Seq<Seq<usize>>),
            ParseFailure,
        >((seed, phases)),
{
    let seed_text = number_text(seed as nat);
    let segments = seq![seed_text] + phase_texts(phases);
    lemma_phases_of_texts(phases);
    lemma_number_text_free_of(seed as nat, '-');
    lemma_number_text_free_of(seed as nat, '/');
    assert forall|i: int| 0 <= i < segments.len() implies free_of(#[trigger] segments[i], '-')
        && free_of(segments[i], '/') by {
        if i > 0 {
            assert(segments[i] == phase_texts(phases)[i - 1]);
        }
    }
    lemma_join_free_of(segments, '-', '/');
    lemma_split_join(segments, '-');
    lemma_parse_number_text(seed);
    assert(segments[0] == seed_text);
    assert(segments.drop_first() =~= phase_texts(phases));
}

/// The text of a vertex has at least two characters, none of them a `/`, and reads
/// back as the vertex.
proof fn lemma_vertex(vertex: VertexType)
    ensures
        vertex_text(vertex).len() >= 2,
        free_of(vertex_text(vertex), '/'),
        vertex_of(vertex_text(vertex)) == Ok::<VertexType, ParseFailure>(vertex),
{
    let index: usize = match vertex {
        VertexType::Corner(index) => index,
        VertexType::Centre(index) => index,
        VertexType::Edge(index) => index,
    };
    let text = vertex_text(vertex);
    lemma_number_text_value(index as nat);
    lemma_number_text_free_of(index as nat, '/');
    lemma_parse_number_text(index);
    assert(text.drop_first() =~= number_text(index as nat));
    assert forall|i: int| 0 <= i < text.len() implies #[trigger] text[i] != '/' by {
        if i > 0 {
            assert(text[i] == number_text(index as nat)[i - 1]);
        }
    }
}

/// The text of a source has no `/` and reads back as the source.
proof fn lemma_source(source: TransformationSource)
    ensures
        free_of(source_text(source), '/'),
        source_of(source_text(source)) == Ok::<TransformationSource, ParseFailure>(source),
{
    let text = source_text(source);
    match source {
        TransformationSource::Origin(None) => {},
        TransformationSource::Origin(Some(angle)) => {
            lemma_number_text_value(angle as nat);
            lemma_number_text_free_of(angle as nat, '/');
            lemma_parse_number_text(angle);
        },
        TransformationSource::Vertex(vertex) => {
            lemma_vertex(vertex);
            let inner = vertex_text(vertex);
            assert(text[0] == '(');
            assert(unsigned_part(text) == text);
            assert(!is_digit(text[0]));
            assert(parse_number(text) is None);
            assert(strip_ends(text) =~= inner);
            assert forall|i: int| 0 <= i < text.len() implies #[trigger] text[i] != '/' by {
                if 0 < i < text.len() - 1 {
                    assert(text[i] == inner[i - 1]);
                }
            }
        },
    }
}

/// The text of a transformation has no `/` and reads back as the transformation.
proof fn lemma_transformation(transformation: Transformation)
    ensures
        free_of(transformation_text(transformation), '/'),
        transformation_of(transformation_text(transformation)) == Ok::<
            Transformation,
            ParseFailure,
        >(transformation),
{
    let source = match transformation {
        Transformation::Rotation(source) => source,
        Transformation::Reflection(source) => source,
    };
    let text = transformation_text(transformation);
    lemma_source(source);
    assert(text.drop_first() =~= source_text(source));
    assert forall|i: int| 0 <= i < text.len() implies #[trigger] text[i] != '/' by {
        if i > 0 {
            assert(text[i] == source_text(source)[i - 1]);
        }
    }
}

/// The texts of transformations have no `/` and read back as the transformations.
proof fn lemma_transformations_of_texts(transformations: Seq<Transformation>)
    ensures
        transformations_of(transformation_texts(transformations)) == Ok::<
            Seq<Transformation>,
            ParseFailure,
        >(transformations),
        forall|i: int|
            0 <= i < transformation_texts(transformations).len() ==> free_of(
                #[trigger] transformation_texts(transformations)[i],
                '/',
            ),
    decreases transformations.len(),
{
    let pieces = transformation_texts(transformations);
    if transformations.len() == 0 {
        assert(transformations =~= Seq::<Transformation>::empty());
    } else {
        let init = transformations.drop_last();
        lemma_transformations_of_texts(init);
        lemma_transformation(transformations.last());
        assert(pieces.drop_last() =~= transformation_texts(init));
        assert(pieces.last() == transformation_text(transformations.last()));
        assert(init.push(transformations.last()) =~= transformations);
        assert forall|i: int| 0 <= i < pieces.len() implies free_of(#[trigger] pieces[i], '/') by {
            if i < init.len() {
                assert(pieces[i] == transformation_texts(init)[i]);
            }
        }
    }
}

/// Round trip: the text of a configuration that has a transformation and no empty
/// phase reads back as that configuration.
pub proof fn lemma_round_trip(configuration: ConfigurationModel)
    requires
        configuration.well_formed(),
    ensures
        configuration_of(configuration_text(configuration)) == Ok::<
            ConfigurationModel,
            ParseFailure,
        >(configuration),
{
    let head = seed_and_phases_text(configuration.seed, configuration.phases);
    let tail = transformation_texts(configuration.transformations);
    let pieces = seq![head] + tail;
    lemma_seed_and_phases(configuration.seed, configuration.phases);
    lemma_transformations_of_texts(configuration.transformations);
    lemma_join_first(head, tail, '/');
    assert forall|i: int| 0 <= i < pieces.len() implies free_of(#[trigger] pieces[i], '/') by {
        if i > 0 {
            assert(pieces[i] == tail[i - 1]);
        }
    }
    lemma_split_join(pieces, '/');
    assert(pieces[0] == head);
    assert(pieces.drop_first() =~= tail);
}

/// The shapes read from tokens are as many as the tokens.
proof fn lemma_shapes_len(tokens: Seq<Seq<char>>)
    ensures
        shapes_of(tokens) is Ok ==> shapes_of(tokens)->Ok_0.len() == tokens.len(),
    decreases tokens.len(),
{
    if tokens.len() > 0 {
        lemma_shapes_len(tokens.drop_last());
    }
}

/// No phase that is read is empty.
proof fn lemma_phases_nonempty(segments: Seq<Seq<char>>)
    ensures
        phases_of(segments) is Ok ==> forall|i: int|
            0 <= i < phases_of(segments)->Ok_0.len() ==> (#[trigger] phases_of(
                segments,
            )->Ok_0[i]).len() >= 1,
    decreases segments.len(),
{
    if segments.len() > 0 {
        lemma_phases_nonempty(segments.drop_last());
        lemma_split_len(segments.last(), ',');
        lemma_shapes_len(split(segments.last(), ','));
    }
}

/// The transformations that are read are as many as the pieces.
proof fn lemma_transformations_len(pieces: Seq<Seq<char>>)
    ensures
        transformations_of(pieces) is Ok ==> transformations_of(pieces)->Ok_0.len()
            == pieces.len(),
    decreases pieces.len(),
{
    if pieces.len() > 0 {
        lemma_transformations_len(pieces.drop_last());
    }
}

/// Every configuration that a text denotes has a transformation and no empty phase,
/// so that the round trip holds of it.
pub proof fn lemma_read_is_well_formed(text: Seq<char>)
    requires
        configuration_of(text) is Ok,
    ensures
        configuration_of(text)->Ok_0.well_formed(),
        configuration_of(configuration_text(configuration_of(text)->Ok_0)) == configuration_of(
            text,
        ),
{
    let pieces = split(text, '/');
    let segments = split(pieces[0], '-');
    lemma_transformations_len(pieces.drop_first());
    lemma_phases_nonempty(segments.drop_first());
    lemma_round_trip(configuration_of(text)->Ok_0);
}

/// Determinism: equal texts denote the same, and equal configurations have the same
/// text.
pub proof fn lemma_deterministic(
    first: Seq<char>,
    second: Seq<char>,
    left: ConfigurationModel,
    right: ConfigurationModel,
)
    ensures
        first == second ==> configuration_of(first) == configuration_of(second),
        left == right ==> configuration_text(left) == configuration_text(right),
{
}

} // verus!
