//! What holds of the checks that a model passes, and of what is written down of it.

use crate::chunk::ChunkOptions;
use crate::embed::fake;
use crate::embed::graph::{self, Graph, GraphDesc, Selected};
use crate::embed::hub::{self, HubClient};
use crate::embed::quantize;
use crate::embed::spec::{self, Pooling, PoolingMeta, Quantization, Spec};
use crate::embed::{self, Embedder, EmbedderModel, LoadedModel};
use crate::float::F32;
use crate::json::{self, Json};
use crate::text;
use crate::tokens;
use vstd::prelude::*;

verus! {

broadcast use {vstd::seq::group_seq_axioms, vstd::map::group_map_axioms};

// ---- specs ---------------------------------------------------------------------------------

/// Whether a revision is a commit: forty characters, each a digit or a letter from `a` to `f`.
pub open spec fn names_a_commit(revision: Seq<char>) -> bool {
    &&& revision.len() == 40
    &&& forall|k: int|
        0 <= k < 40 ==> '0' <= #[trigger] revision[k] <= '9' || 'a' <= revision[k] <= 'f'
}

/// Exactly a repository and a file that are not blank, a commit and a width above zero make a spec; it
/// has them as they are given, and leaves all else open.
pub proof fn specs_are_made_of_what_is_given(
    repo: Seq<char>,
    revision: Seq<char>,
    file: Seq<char>,
    dim: usize,
)
    ensures
        ({
            let given = spec::model_spec(repo, revision, file, dim);
            &&& given is Ok <==> text::trim(repo).len() > 0 && text::trim(file).len() > 0
                && names_a_commit(revision) && dim > 0
            &&& given is Ok ==> given->Ok_0 == (Spec {
                repo,
                revision,
                file,
                additional: Seq::empty(),
                output: None,
                pooling: None,
                quantization: Quantization::Off,
                pooling_metadata_from: None,
                native_dim: dim as nat,
                truncate_to: None,
            })
        }),
{
    if spec::pinned_sha(revision) {
        assert forall|k: int| 0 <= k < 40 implies '0' <= #[trigger] revision[k] <= '9' || 'a'
            <= revision[k] <= 'f' by {
            assert(spec::lower_hex(revision[k]));
        }
    }
    if names_a_commit(revision) {
        assert(spec::pinned_sha(revision));
    }
}

/// What is wrong with a spec that cannot be made is told in this order: the repository, the file, the
/// revision, which is shown, and the width.
pub proof fn refused_specs_tell_why(
    repo: Seq<char>,
    revision: Seq<char>,
    file: Seq<char>,
    dim: usize,
)
    ensures
        ({
            let given = spec::model_spec(repo, revision, file, dim);
            let no_repo = text::trim(repo).len() == 0;
            let no_file = text::trim(file).len() == 0;
            &&& no_repo ==> given == Err::<Spec, Seq<char>>("repo must not be empty"@)
            &&& !no_repo && no_file ==> given == Err::<Spec, Seq<char>>("file must not be empty"@)
            &&& !no_repo && !no_file && !names_a_commit(revision) ==> given == Err::<
                Spec,
                Seq<char>,
            >(
                "revision `"@ + revision
                    + "` is not a 40-character lowercase hex commit sha; pin a commit (branches, tags and short shas are not reproducible)"@,
            )
            &&& !no_repo && !no_file && names_a_commit(revision) && dim == 0 ==> given == Err::<
                Spec,
                Seq<char>,
            >("dim must be > 0"@)
        }),
{
    specs_are_made_of_what_is_given(repo, revision, file, dim);
    if !names_a_commit(revision) {
        if spec::pinned_sha(revision) {
            assert forall|k: int| 0 <= k < 40 implies '0' <= #[trigger] revision[k] <= '9' || 'a'
                <= revision[k] <= 'f' by {
                assert(spec::lower_hex(revision[k]));
            }
        }
    } else {
        assert(spec::pinned_sha(revision));
    }
}

/// Exactly a width of at least 32 that is a multiple of eight can be stored, and is kept as it is.
pub proof fn stored_widths_fill_bytes(dims: usize)
    ensures
        dims >= 32 && dims % 8 == 0 ==> spec::truncated_dims(dims) == Ok::<usize, Seq<char>>(dims),
        dims < 32 || dims % 8 != 0 ==> spec::truncated_dims(dims) is Err,
        dims == 0 ==> spec::truncated_dims(dims) == Err::<usize, Seq<char>>(
            "truncated dims must be > 0"@,
        ),
        0 < dims < 32 ==> spec::truncated_dims(dims) == Err::<usize, Seq<char>>(
            "truncated dims "@ + text::digits(dims as nat) + " below minimum 32"@,
        ),
        dims >= 32 && dims % 8 != 0 ==> spec::truncated_dims(dims) == Err::<usize, Seq<char>>(
            "truncated dims "@ + text::digits(dims as nat)
                + " must be a multiple of 8 (one sign bit per dim, 8 per byte)"@,
        ),
{
}

// ---- identities ----------------------------------------------------------------------------

/// An identity is the repository, the file, the commit and the stored width, in this order; and how
/// that was authorised, if it is not the model's own.
pub proof fn identities_are_written_in_full(spec: Spec, from_metadata: bool)
    ensures
        spec.truncate_to is None ==> graph::identity(spec, from_metadata) == spec.repo + "/"@
            + spec.file + "@"@ + spec.revision + "#d"@ + text::digits(spec.native_dim),
        spec.truncate_to is Some && from_metadata ==> graph::identity(spec, from_metadata)
            == spec.repo + "/"@ + spec.file + "@"@ + spec.revision + "#d"@ + text::digits(
            spec.truncate_to->0 as nat,
        ) + "/meta"@,
        spec.truncate_to is Some && !from_metadata ==> graph::identity(spec, from_metadata)
            == spec.repo + "/"@ + spec.file + "@"@ + spec.revision + "#d"@ + text::digits(
            spec.truncate_to->0 as nat,
        ) + "/spec"@,
{
}

// ---- graphs --------------------------------------------------------------------------------

/// Whether a graph input can be fed.
pub open spec fn fed(name: Seq<char>) -> bool {
    name == "input_ids"@ || name == "attention_mask"@ || name == "token_type_ids"@
}

/// Whether the pooling that a repository declares allows the given one: it is among the modes, no mode
/// that cannot be applied is, and the prompt is not left out.
pub open spec fn agrees(pooling: Pooling, meta: PoolingMeta) -> bool {
    &&& !meta.lasttoken
    &&& !meta.max
    &&& !meta.weightedmean
    &&& !meta.mean_sqrt_len
    &&& meta.include_prompt != Some(false)
    &&& pooling == Pooling::Cls ==> meta.cls
    &&& pooling == Pooling::Mean ==> meta.mean
}

/// Whether output `o` is the one to read: the first of the declared name, or the only one.
pub open spec fn is_read(graph: Graph, output: Option<Seq<char>>, o: int) -> bool {
    &&& 0 <= o < graph.outputs.len()
    &&& match output {
        Some(name) => graph.outputs[o].0 == name && forall|k: int|
            0 <= k < o ==> (#[trigger] graph.outputs[k]).0 != name,
        None => graph.outputs.len() == 1,
    }
}

/// Whether output `o` can be pooled: it is a tensor, and if it has a vector per token, a pooling is
/// declared that the repository allows.
pub open spec fn can_be_pooled(
    graph: Graph,
    pooling: Option<Pooling>,
    meta: Option<PoolingMeta>,
    o: int,
) -> bool {
    &&& graph.outputs[o].1 != 0
    &&& graph.outputs[o].1 == 3 ==> pooling is Some && (meta is Some ==> agrees(
        pooling->0,
        meta->0,
    ))
}

/// Whether a width may be stored: it is among the declared ones, if any are declared.
pub open spec fn may_be_stored(width: Option<usize>, declared: Option<Seq<usize>>) -> bool {
    width is Some && declared is Some ==> declared->0.contains(width->0)
}

/// A graph that can be fed, whose output can be read and pooled, and whose width may be stored, passes;
/// the output is pooled as declared if it has a vector per token, and not at all else.
pub proof fn graphs_that_can_run_pass(
    graph: Graph,
    spec: Spec,
    meta: Option<PoolingMeta>,
    widths: Option<Seq<usize>>,
    o: int,
)
    requires
        forall|i: int| 0 <= i < graph.inputs.len() ==> fed(#[trigger] graph.inputs[i]),
        is_read(graph, spec.output, o),
        can_be_pooled(graph, spec.pooling, meta, o),
        may_be_stored(spec.truncate_to, widths),
    ensures
        graph::validated(graph, spec, meta, widths) == Ok::<Selected, Seq<char>>(
            Selected {
                name: graph.outputs[o].0,
                pooling: if graph.outputs[o].1 == 3 {
                    spec.pooling
                } else {
                    None
                },
                mrl_from_metadata: spec.truncate_to is Some && widths is Some,
            },
        ),
{
    lemma_all_fed(graph.inputs);
    if let Some(name) = spec.output {
        lemma_first_output(graph.outputs, name, 0, o);
    }
}

/// A graph that cannot be fed, whose output cannot be read or pooled, or whose width may not be stored,
/// is refused.
pub proof fn graphs_that_cannot_run_are_refused(
    graph: Graph,
    spec: Spec,
    meta: Option<PoolingMeta>,
    widths: Option<Seq<usize>>,
)
    requires
        ({
            ||| exists|i: int| 0 <= i < graph.inputs.len() && !fed(#[trigger] graph.inputs[i])
            ||| forall|o: int| !#[trigger] is_read(graph, spec.output, o)
            ||| exists|o: int| #[trigger]
                is_read(graph, spec.output, o) && !can_be_pooled(graph, spec.pooling, meta, o)
            ||| !may_be_stored(spec.truncate_to, widths)
        }),
    ensures
        graph::validated(graph, spec, meta, widths) is Err,
{
    if exists|i: int| 0 <= i < graph.inputs.len() && !fed(#[trigger] graph.inputs[i]) {
        let i = choose|i: int| 0 <= i < graph.inputs.len() && !fed(#[trigger] graph.inputs[i]);
        lemma_not_fed(graph.inputs, i);
    } else if graph::selected(graph.outputs, spec.output) is Ok {
        let o = match spec.output {
            Some(name) => lemma_found_output(graph.outputs, name, 0),
            None => 0,
        };
        assert(is_read(graph, spec.output, o));
        assert forall|p: int| #[trigger] is_read(graph, spec.output, p) implies p == o by {
            if let Some(name) = spec.output {
                if p < o {
                    assert(graph.outputs[p].0 != name);
                } else if o < p {
                    assert(graph.outputs[o].0 != name);
                }
            }
        }
    }
}

/// Inputs that cannot be fed are all named.
pub proof fn refused_inputs_are_named(
    graph: Graph,
    spec: Spec,
    meta: Option<PoolingMeta>,
    widths: Option<Seq<usize>>,
    i: int,
) -> (named: Seq<Seq<char>>)
    requires
        0 <= i < graph.inputs.len(),
        !fed(graph.inputs[i]),
    ensures
        graph::validated(graph, spec, meta, widths) == Err::<Selected, Seq<char>>(
            "graph needs inputs fastembed cannot feed: "@ + text::joined(named, ", "@),
        ),
        forall|k: int|
            0 <= k < graph.inputs.len() && !fed(#[trigger] graph.inputs[k]) ==> named.contains(
                graph.inputs[k],
            ),
        forall|k: int|
            0 <= k < named.len() ==> graph.inputs.contains(#[trigger] named[k]) && !fed(named[k]),
{
    let named = graph::unsupported(graph.inputs);
    lemma_not_fed(graph.inputs, i);
    assert forall|k: int| 0 <= k < graph.inputs.len() && !fed(#[trigger] graph.inputs[k]) implies
        named.contains(graph.inputs[k]) by {
        lemma_not_fed(graph.inputs, k);
    }
    assert forall|k: int| 0 <= k < named.len() implies graph.inputs.contains(#[trigger] named[k])
        && !fed(named[k]) by {
        lemma_named(graph.inputs, k);
    }
    named
}

proof fn lemma_all_fed(inputs: Seq<Seq<char>>)
    requires
        forall|i: int| 0 <= i < inputs.len() ==> fed(#[trigger] inputs[i]),
    ensures
        graph::unsupported(inputs).len() == 0,
    decreases inputs.len(),
{
    reveal(Seq::filter);
    if inputs.len() > 0 {
        lemma_all_fed(inputs.drop_last());
        assert(fed(inputs[inputs.len() - 1]));
    }
}

proof fn lemma_not_fed(inputs: Seq<Seq<char>>, i: int)
    requires
        0 <= i < inputs.len(),
        !fed(inputs[i]),
    ensures
        graph::unsupported(inputs).len() > 0,
        graph::unsupported(inputs).contains(inputs[i]),
    decreases inputs.len(),
{
    reveal(Seq::filter);
    let named = graph::unsupported(inputs);
    let before = graph::unsupported(inputs.drop_last());
    if i < inputs.len() - 1 {
        lemma_not_fed(inputs.drop_last(), i);
        let k = choose|k: int| 0 <= k < before.len() && before[k] == inputs[i];
        assert(named[k] == before[k]);
    } else {
        assert(named[named.len() - 1] == inputs[i]);
    }
}

proof fn lemma_named(inputs: Seq<Seq<char>>, k: int)
    requires
        0 <= k < graph::unsupported(inputs).len(),
    ensures
        inputs.contains(graph::unsupported(inputs)[k]),
        !fed(graph::unsupported(inputs)[k]),
    decreases inputs.len(),
{
    reveal(Seq::filter);
    let before = graph::unsupported(inputs.drop_last());
    if k < before.len() {
        lemma_named(inputs.drop_last(), k);
        let i = choose|i: int|
            0 <= i < inputs.drop_last().len() && inputs.drop_last()[i] == before[k];
        assert(inputs[i] == before[k]);
    } else {
        assert(inputs[inputs.len() - 1] == graph::unsupported(inputs)[k]);
    }
}

proof fn lemma_first_output(outputs: Seq<(Seq<char>, usize)>, name: Seq<char>, from: int, o: int)
    requires
        0 <= from <= o < outputs.len(),
        outputs[o].0 == name,
        forall|k: int| 0 <= k < o ==> (#[trigger] outputs[k]).0 != name,
    ensures
        graph::output_from(outputs, name, from) == Some(outputs[o]),
    decreases o - from,
{
    if from < o {
        assert(outputs[from].0 != name);
        lemma_first_output(outputs, name, from + 1, o);
    }
}

proof fn lemma_found_output(outputs: Seq<(Seq<char>, usize)>, name: Seq<char>, from: int) -> (o: int)
    requires
        0 <= from,
        graph::output_from(outputs, name, from) is Some,
        forall|k: int| 0 <= k < from && k < outputs.len() ==> (#[trigger] outputs[k]).0 != name,
    ensures
        from <= o < outputs.len(),
        graph::output_from(outputs, name, from) == Some(outputs[o]),
        outputs[o].0 == name,
        forall|k: int| 0 <= k < o ==> (#[trigger] outputs[k]).0 != name,
    decreases outputs.len() - from,
{
    if outputs[from].0 == name {
        from
    } else {
        lemma_found_output(outputs, name, from + 1)
    }
}

/// A pooling can be applied exactly where the repository allows it; else it is told what does not.
pub proof fn poolings_must_agree(pooling: Pooling, meta: PoolingMeta, output: Seq<char>)
    ensures
        ({
            let r = graph::pooling_conflict(pooling, meta, output);
            let odd = meta.max || meta.weightedmean || meta.mean_sqrt_len;
            &&& r is Ok <==> agrees(pooling, meta)
            &&& meta.lasttoken ==> r == Err::<(), Seq<char>>(
                "1_Pooling declares last-token pooling, unsupported in-process (output `"@ + output
                    + "`)"@,
            )
            &&& !meta.lasttoken && odd ==> r == Err::<(), Seq<char>>(
                "1_Pooling declares a pooling mode fastembed cannot apply (output `"@ + output
                    + "`)"@,
            )
            &&& !meta.lasttoken && !odd && meta.include_prompt == Some(false) ==> r == Err::<
                (),
                Seq<char>,
            >(
                "1_Pooling sets include_prompt: false; fastembed's mean would average the instruction in"@,
            )
        }),
{
}

// ---- loading -------------------------------------------------------------------------------

/// A model is loaded exactly where a probe came out at the declared width, which fills bytes and is no
/// narrower than what is stored, and its tokenizer can be trusted. It keeps its width, what it stores,
/// its prefixes and its window, and counts without that.
pub proof fn models_are_loaded_as_declared(
    spec: Spec,
    from_metadata: bool,
    probe: Option<usize>,
    query_prefix: Seq<char>,
    document_prefix: Seq<char>,
    tokenizer: tokenizers::Tokenizer,
)
    ensures
        ({
            let r = embed::loaded(
                spec,
                from_metadata,
                probe,
                query_prefix,
                document_prefix,
                tokenizer,
            );
            &&& r is Ok <==> probe is Some && probe->0 == spec.native_dim && probe->0 % 8 == 0 && (
            spec.truncate_to is Some ==> spec.truncate_to->0 <= probe->0) && tokens::refusal(
                tokens::untruncated(tokenizer),
            ) is None
            &&& r is Ok ==> r->Ok_0 == (EmbedderModel {
                native_dim: probe->0,
                truncated: spec.truncate_to,
                query_prefix,
                document_prefix,
                model: Some(
                    LoadedModel {
                        model_id: graph::identity(spec, from_metadata),
                        max_tokens: tokens::window(tokenizer),
                        tokenizer: tokens::untruncated(tokenizer),
                    },
                ),
            })
        }),
{
}

/// What is stored of a vector are its first numbers, as many as the width says, or all where there is
/// none.
pub proof fn vectors_are_cut_to_the_stored_width(m: EmbedderModel, vectors: Seq<Seq<F32>>, i: int)
    requires
        0 <= i < vectors.len(),
    ensures
        m.stored(vectors).len() == vectors.len(),
        m.truncated is None ==> m.stored(vectors)[i] == vectors[i],
        m.truncated is Some && m.truncated->0 <= vectors[i].len() ==> m.stored(vectors)[i]
            == vectors[i].subrange(0, m.truncated->0 as int),
        m.truncated matches Some(n) && n > vectors[i].len() ==> m.stored(vectors)[i] == vectors[i],
        m.truncated is None ==> m.dim() == m.native_dim,
        m.truncated matches Some(n) ==> m.dim() == n,
        m.model is None ==> m.max_tokens() == Some(512usize),
        m.model matches Some(model) ==> m.max_tokens() == model.max_tokens,
{
    if let Some(n) = m.truncated {
        if n <= vectors[i].len() {
            assert(m.stored(vectors)[i] =~= vectors[i].subrange(0, n as int));
        }
    }
}

// ---- packed signs --------------------------------------------------------------------------

/// The packed signs of a vector are as few bytes as hold them; bit `k % 8` of byte `k / 8`, from the
/// lowest, is set where number `k` is above zero, and no other bit is.
pub proof fn signs_are_packed_from_the_lowest_bit(values: Seq<F32>, bytes: Seq<u8>, k: int)
    requires
        quantize::signs(values, bytes),
        0 <= k < 8 * bytes.len(),
    ensures
        8 * bytes.len() - 8 < values.len() <= 8 * bytes.len(),
        (bytes[k / 8] & (1u8 << ((k % 8) as u8))) != 0 <==> k < values.len() && 1 <= values[k].bits
            <= 0x7f80_0000,
{
    let byte = bytes[k / 8];
    let b = (k % 8) as u8;
    assert(quantize::bit(bytes, k) <==> k < values.len() && values[k].positive());
    assert((byte >> b) & 1u8 == 1u8 <==> (byte & (1u8 << b)) != 0) by (bit_vector)
        requires
            b < 8,
    ;
}

/// Sign bits take as few bytes as hold them.
pub proof fn packed_lengths_are_minimal(dims: int)
    requires
        dims >= 0,
    ensures
        8 * quantize::bytes_for(dims) >= dims,
        8 * quantize::bytes_for(dims) < dims + 8,
{
}

// ---- fake vectors --------------------------------------------------------------------------

/// A hash starts from the offset basis; every byte is mixed into it before it is multiplied.
pub proof fn hashes_mix_every_byte(bytes: Seq<u8>, b: u8)
    ensures
        fake::hash(Seq::empty()) == 0xcbf2_9ce4_8422_2325,
        fake::hash(bytes.push(b)) == (fake::hash(bytes) ^ (b as u64)).wrapping_mul(0x0100_0193),
{
    assert(bytes.push(b).drop_last() =~= bytes);
}

/// The numbers of a text come of states that go up by the same step, wrapping around, from its hash.
pub proof fn streams_go_up_by_one_step(text: Seq<char>, dim: nat, i: int)
    requires
        0 <= i < dim,
    ensures
        fake::numbers(text, dim).len() == dim,
        fake::numbers(text, dim)[i] == fake::mix(
            fake::state_after(fake::hash(vstd::utf8::encode_utf8(text)), (i + 1) as nat),
        ),
        fake::state_after(fake::hash(vstd::utf8::encode_utf8(text)), 0) == fake::hash(
            vstd::utf8::encode_utf8(text),
        ),
        fake::state_after(fake::hash(vstd::utf8::encode_utf8(text)), (i + 1) as nat)
            == fake::state_after(
            fake::hash(vstd::utf8::encode_utf8(text)),
            i as nat,
        ).wrapping_add(0x9e37_79b9_7f4a_7c15),
{
}

// ---- hashes in hexadecimal -----------------------------------------------------------------

/// The value of a hexadecimal digit in lower case.
pub open spec fn hex_value(c: char) -> int {
    if c as u32 <= 0x39 {
        c as u32 - 0x30
    } else {
        c as u32 - 0x61 + 10
    }
}

/// Bytes in hexadecimal read back: two digits each, the higher one first, in lower case.
pub proof fn hexadecimal_reads_back(bytes: Seq<u8>, i: int)
    requires
        0 <= i < bytes.len(),
    ensures
        hub::hex_text(bytes).len() == 2 * bytes.len(),
        16 * hex_value(hub::hex_text(bytes)[2 * i]) + hex_value(hub::hex_text(bytes)[2 * i + 1])
            == bytes[i],
        spec::lower_hex(hub::hex_text(bytes)[2 * i]),
        spec::lower_hex(hub::hex_text(bytes)[2 * i + 1]),
    decreases bytes.len(),
{
    let before = bytes.drop_last();
    let all = hub::hex_text(bytes);
    lemma_hex_len(before);
    if i < before.len() {
        hexadecimal_reads_back(before, i);
        assert(all[2 * i] == hub::hex_text(before)[2 * i]);
        assert(all[2 * i + 1] == hub::hex_text(before)[2 * i + 1]);
    } else {
        let b = bytes.last();
        assert(b / 16 < 16 && b % 16 < 16);
        assert(all[2 * i] == text::digit((b / 16) as nat));
        assert(all[2 * i + 1] == text::digit((b % 16) as nat));
        assert(16 * (b / 16) + b % 16 == b);
    }
}

proof fn lemma_hex_len(bytes: Seq<u8>)
    ensures
        hub::hex_text(bytes).len() == 2 * bytes.len(),
    decreases bytes.len(),
{
    if bytes.len() > 0 {
        lemma_hex_len(bytes.drop_last());
    }
}

// ---- files ---------------------------------------------------------------------------------

/// A file is taken as it is served exactly where no sha256 is reported of it, or the reported one is
/// its own; a file that is not served is not taken.
pub proof fn files_are_taken_as_served(
    tree: Map<Seq<char>, Option<String>>,
    file: Seq<char>,
    bytes: Seq<u8>,
    cause: Seq<char>,
)
    ensures
        ({
            let r = hub::accepted(tree, file, Ok(bytes));
            let own = hub::hex_text(hub::sha256(bytes));
            &&& !tree.dom().contains(file) || tree[file] is None ==> r == Ok::<Seq<u8>, Seq<char>>(
                bytes,
            )
            &&& tree.dom().contains(file) && tree[file] is Some && tree[file]->0@ == own ==> r == Ok::<
                Seq<u8>,
                Seq<char>,
            >(bytes)
            &&& tree.dom().contains(file) && tree[file] is Some && tree[file]->0@ != own ==> r
                == Err::<Seq<u8>, Seq<char>>(
                "sha256 mismatch for `"@ + file + "`: got "@ + own + ", hub reports "@
                    + tree[file]->0@,
            )
        }),
        hub::accepted(tree, file, Err(cause)) == Err::<Seq<u8>, Seq<char>>(cause),
{
}

/// The window is the number that the configuration has under `model_max_length`; anything else there is
/// refused.
pub proof fn windows_are_read_from_the_configuration(
    config: Seq<u8>,
    members: Map<Seq<char>, Json>,
    n: u64,
)
    requires
        json::parsed(config) == Ok::<Json, Seq<char>>(Json::Object(members)),
    ensures
        members.dom().contains("model_max_length"@) && members["model_max_length"@]
            == Json::Unsigned(n) && n <= usize::MAX ==> hub::max_length(config) == Ok::<
            usize,
            Seq<char>,
        >(n as usize),
        !members.dom().contains("model_max_length"@) || members["model_max_length"@] !is Unsigned
            ==> hub::max_length(config) == Err::<usize, Seq<char>>(
            "tokenizer_config.json has no numeric `model_max_length`"@,
        ),
{
}

/// The declared widths are the numbers that the configuration lists under `matryoshka_dimensions`; there
/// are none declared where that is no list.
pub proof fn widths_are_read_from_the_configuration(
    config: Seq<u8>,
    members: Map<Seq<char>, Json>,
    list: Seq<Json>,
    width: usize,
)
    requires
        json::parsed(config) == Ok::<Json, Seq<char>>(Json::Object(members)),
    ensures
        members.dom().contains("matryoshka_dimensions"@) && members["matryoshka_dimensions"@]
            == Json::Array(list) ==> {
            &&& hub::matryoshka(config) matches Ok(Some(widths))
            &&& widths.contains(width) <==> list.contains(Json::Unsigned(width as u64))
        },
        !members.dom().contains("matryoshka_dimensions"@) || members["matryoshka_dimensions"@]
            !is Array ==> hub::matryoshka(config) == Ok::<Option<Seq<usize>>, Seq<char>>(None),
{
    lemma_widths(list, width);
}

proof fn lemma_widths(list: Seq<Json>, width: usize)
    ensures
        hub::widths(list).contains(width) <==> list.contains(Json::Unsigned(width as u64)),
    decreases list.len(),
{
    let target = Json::Unsigned(width as u64);
    if list.len() > 0 {
        let before = list.drop_last();
        lemma_widths(before, width);
        let all = hub::widths(list);
        let some = hub::widths(before);
        if some.contains(width) {
            let k = choose|k: int| 0 <= k < some.len() && some[k] == width;
            assert(all[k] == width);
            let j = choose|j: int| 0 <= j < before.len() && before[j] == target;
            assert(list[j] == target);
        } else if list.last() == target {
            assert(list[list.len() - 1] == target);
            assert(all[all.len() - 1] == width);
        } else {
            if list.contains(target) {
                let j = choose|j: int| 0 <= j < list.len() && list[j] == target;
                assert(before[j] == target);
            }
            if all.contains(width) {
                let k = choose|k: int| 0 <= k < all.len() && all[k] == width;
                if k < some.len() {
                    assert(some[k] == width);
                }
            }
        }
    }
}

/// Listed widths come out in their order, where all of them are numbers.
pub proof fn widths_keep_their_order(list: Seq<Json>, i: int)
    requires
        0 <= i < list.len(),
        forall|k: int|
            0 <= k < list.len() ==> (#[trigger] list[k]) is Unsigned && list[k]->Unsigned_0
                <= usize::MAX,
    ensures
        hub::widths(list).len() == list.len(),
        hub::widths(list)[i] == list[i]->Unsigned_0,
    decreases list.len(),
{
    let before = list.drop_last();
    assert(list[list.len() - 1] is Unsigned && list[list.len() - 1]->Unsigned_0 <= usize::MAX);
    assert forall|k: int| 0 <= k < before.len() implies (#[trigger] before[k]) is Unsigned
        && before[k]->Unsigned_0 <= usize::MAX by {
        assert(list[k] is Unsigned && list[k]->Unsigned_0 <= usize::MAX);
    }
    if before.len() > 0 {
        widths_keep_their_order(
            before,
            if i < before.len() {
                i
            } else {
                0
            },
        );
    } else {
        assert(hub::widths(before) =~= Seq::empty());
    }
}

/// Whether an object says `b` under `key`: the boolean itself, or nothing for `false`.
pub open spec fn says(members: Map<Seq<char>, Json>, key: Seq<char>, b: bool) -> bool {
    if members.dom().contains(key) {
        members[key] == Json::Bool(b)
    } else {
        !b
    }
}

/// Whether an object says `b` under `key`, where it may also say nothing or null.
pub open spec fn may_say(members: Map<Seq<char>, Json>, key: Seq<char>, b: Option<bool>) -> bool {
    match b {
        Some(b) => members.dom().contains(key) && members[key] == Json::Bool(b),
        None => !members.dom().contains(key) || members[key] is Null,
    }
}

/// Every pooling flag is what the configuration says under its own name.
pub proof fn pooling_flags_are_read_by_name(members: Map<Seq<char>, Json>, meta: PoolingMeta)
    ensures
        hub::pooling_config(Json::Object(members)) == Some(meta) <==> {
            &&& says(members, "pooling_mode_cls_token"@, meta.cls)
            &&& says(members, "pooling_mode_mean_tokens"@, meta.mean)
            &&& says(members, "pooling_mode_max_tokens"@, meta.max)
            &&& says(members, "pooling_mode_weightedmean_tokens"@, meta.weightedmean)
            &&& says(members, "pooling_mode_mean_sqrt_len_tokens"@, meta.mean_sqrt_len)
            &&& says(members, "pooling_mode_lasttoken"@, meta.lasttoken)
            &&& may_say(members, "include_prompt"@, meta.include_prompt)
        },
{
}

/// A configuration that is a list gives all seven flags in their order.
pub proof fn listed_pooling_flags_are_read_in_order(list: Seq<Json>, meta: PoolingMeta)
    ensures
        hub::pooling_config(Json::Array(list)) == Some(meta) <==> {
            &&& list.len() == 7
            &&& list[0] == Json::Bool(meta.cls)
            &&& list[1] == Json::Bool(meta.mean)
            &&& list[2] == Json::Bool(meta.max)
            &&& list[3] == Json::Bool(meta.weightedmean)
            &&& list[4] == Json::Bool(meta.mean_sqrt_len)
            &&& list[5] == Json::Bool(meta.lasttoken)
            &&& match meta.include_prompt {
                Some(b) => list[6] == Json::Bool(b),
                None => list[6] is Null,
            }
        },
{
}

/// Pooling flags come from the artifact's own repository where it has them, else from the repository
/// that is named for them, else there are none.
pub proof fn pooling_comes_from_the_artifact_first<C: HubClient>(
    client: &C,
    spec: Spec,
    tree: Map<Seq<char>, Option<String>>,
    r: Result<Option<PoolingMeta>, Seq<char>>,
)
    requires
        hub::pooling_for(client, spec, tree, r),
    ensures
        tree.dom().contains("1_Pooling/config.json"@) ==> exists|
            reply: Result<Seq<u8>, Seq<char>>,
        | #[trigger]
            hub::served_by(client, spec.repo, spec.revision, "1_Pooling/config.json"@, reply)
                && pooling_read(tree, reply, r),
        !tree.dom().contains("1_Pooling/config.json"@) && spec.pooling_metadata_from is None
            ==> r == Ok::<Option<PoolingMeta>, Seq<char>>(None),
        spec.pooling_metadata_from matches Some(source) ==> (!tree.dom().contains(
            "1_Pooling/config.json"@,
        ) ==> hub::pooling_elsewhere(client, source.0, source.1, r)),
{
}

/// Whether `r` is what a reply says of the pooling flags: those of the bytes that it serves, if they
/// are taken and hold some; else why not.
pub open spec fn pooling_read(
    tree: Map<Seq<char>, Option<String>>,
    reply: Result<Seq<u8>, Seq<char>>,
    r: Result<Option<PoolingMeta>, Seq<char>>,
) -> bool {
    match hub::accepted(tree, "1_Pooling/config.json"@, reply) {
        Err(m) => r == Err::<Option<PoolingMeta>, Seq<char>>(m),
        Ok(bytes) => match hub::pooling_meta(bytes) {
            Ok(meta) => r == Ok::<Option<PoolingMeta>, Seq<char>>(Some(meta)),
            Err(m) => r == Err::<Option<PoolingMeta>, Seq<char>>(m),
        },
    }
}

/// What is fetched comes from a listing that is not empty, of the repository and commit of the spec.
pub proof fn nothing_is_fetched_from_nothing<C: HubClient>(
    client: &C,
    spec: Spec,
    parts: hub::Parts,
) -> (tree: Map<Seq<char>, Option<String>>)
    requires
        hub::fetched(client, spec, Ok(parts)),
    ensures
        hub::listed_by(client, spec.repo, spec.revision, Ok(tree)),
        tree != Map::<Seq<char>, Option<String>>::empty(),
        hub::fetched_listed(client, spec, tree, Ok(parts)),
{
    let listing = choose|listing: Result<Map<Seq<char>, Option<String>>, Seq<char>>| #[trigger]
        hub::listed_by(client, spec.repo, spec.revision, listing) && match listing {
            Err(m) => Ok::<hub::Parts, Seq<char>>(parts) == Err::<hub::Parts, Seq<char>>(m),
            Ok(tree) => if tree == Map::<Seq<char>, Option<String>>::empty() {
                Ok::<hub::Parts, Seq<char>>(parts) == Err::<hub::Parts, Seq<char>>(
                    spec.repo + "@"@ + spec.revision + ": empty file listing"@,
                )
            } else {
                hub::fetched_listed(client, spec, tree, Ok(parts))
            },
        };
    listing->Ok_0
}

/// The window, the declared widths and the pooling flags of what is fetched are those of the files that
/// came with it.
pub proof fn fetched_metadata_is_that_of_the_files<C: HubClient>(
    client: &C,
    spec: Spec,
    tree: Map<Seq<char>, Option<String>>,
    parts: hub::Parts,
)
    requires
        hub::fetched_listed(client, spec, tree, Ok(parts)),
    ensures
        hub::max_length(parts.tokenizer_config_file) == Ok::<usize, Seq<char>>(parts.max_length),
        hub::matryoshka(parts.config_file) == Ok::<Option<Seq<usize>>, Seq<char>>(
            parts.matryoshka_dims,
        ),
        hub::pooling_for(client, spec, tree, Ok(parts.pooling_meta)),
{
    let n = spec.additional.len() as int;
    let files = choose|files: Result<Seq<Seq<u8>>, Seq<char>>| #[trigger]
        hub::read_all_from(client, spec, tree, hub::required(spec), files) && match files {
            Err(m) => Ok::<hub::Parts, Seq<char>>(parts) == Err::<hub::Parts, Seq<char>>(m),
            Ok(files) => if hub::max_length(files[n + 4]) is Err || hub::matryoshka(files[n + 2])
                is Err {
                Ok::<hub::Parts, Seq<char>>(parts) == hub::assembled(spec, files, Ok(None))
            } else {
                exists|pooling: Result<Option<PoolingMeta>, Seq<char>>| #[trigger]
                    hub::pooling_for(client, spec, tree, pooling) && Ok::<hub::Parts, Seq<char>>(
                        parts,
                    ) == hub::assembled(spec, files, pooling)
            },
        };
    let bodies = files->Ok_0;
    let pooling = choose|pooling: Result<Option<PoolingMeta>, Seq<char>>| #[trigger]
        hub::pooling_for(client, spec, tree, pooling) && Ok::<hub::Parts, Seq<char>>(parts)
            == hub::assembled(spec, bodies, pooling);
    assert(pooling is Ok);
    assert(pooling == Ok::<Option<PoolingMeta>, Seq<char>>(parts.pooling_meta));
}

/// A fetch from a listing fails only as one of the files that the spec needs does, when read or as what
/// it says, or as the pooling flags do.
pub proof fn fetches_fail_for_a_reason<C: HubClient>(
    client: &C,
    spec: Spec,
    tree: Map<Seq<char>, Option<String>>,
    message: Seq<char>,
)
    requires
        hub::fetched_listed(client, spec, tree, Err(message)),
    ensures
        ({
            ||| exists|file: Seq<char>| #[trigger]
                needs(spec, file) && hub::read_from(client, spec, tree, file, Err(message))
            ||| exists|bytes: Seq<u8>| #[trigger]
                hub::read_from(client, spec, tree, "tokenizer_config.json"@, Ok(bytes))
                    && hub::max_length(bytes) == Err::<usize, Seq<char>>(message)
            ||| exists|bytes: Seq<u8>| #[trigger]
                hub::read_from(client, spec, tree, "config.json"@, Ok(bytes)) && hub::matryoshka(
                    bytes,
                ) == Err::<Option<Seq<usize>>, Seq<char>>(message)
            ||| hub::pooling_for(client, spec, tree, Err(message))
        }),
{
    let names = hub::required(spec);
    let n = spec.additional.len() as int;
    let files = choose|files: Result<Seq<Seq<u8>>, Seq<char>>| #[trigger]
        hub::read_all_from(client, spec, tree, names, files) && match files {
            Err(m) => Err::<hub::Parts, Seq<char>>(message) == Err::<hub::Parts, Seq<char>>(m),
            Ok(files) => if hub::max_length(files[n + 4]) is Err || hub::matryoshka(files[n + 2])
                is Err {
                Err::<hub::Parts, Seq<char>>(message) == hub::assembled(spec, files, Ok(None))
            } else {
                exists|pooling: Result<Option<PoolingMeta>, Seq<char>>| #[trigger]
                    hub::pooling_for(client, spec, tree, pooling) && Err::<hub::Parts, Seq<char>>(
                        message,
                    ) == hub::assembled(spec, files, pooling)
            },
        };
    let reads = choose|reads: Seq<Result<Seq<u8>, Seq<char>>>| #[trigger]
        hub::read_in_turn(client, spec, tree, names, reads) && files == hub::collected(reads);
    match files {
        Err(m) => {
            let k = reads.len() - 1;
            assert(reads[k] == Err::<Seq<u8>, Seq<char>>(message));
            assert(hub::read_from(client, spec, tree, names[k], reads[k]));
            assert(needs(spec, names[k]));
        },
        Ok(bodies) => {
            assert(reads.len() == n + 5);
            assert(names[n + 2] == "config.json"@);
            assert(names[n + 4] == "tokenizer_config.json"@);
            assert(reads[n + 2] is Ok && reads[n + 4] is Ok);
            assert(bodies[n + 2] == reads[n + 2]->Ok_0 && bodies[n + 4] == reads[n + 4]->Ok_0);
            assert(reads[n + 2] == Ok::<Seq<u8>, Seq<char>>(bodies[n + 2]));
            assert(reads[n + 4] == Ok::<Seq<u8>, Seq<char>>(bodies[n + 4]));
            assert(hub::read_from(client, spec, tree, "config.json"@, Ok(bodies[n + 2])));
            assert(hub::read_from(client, spec, tree, "tokenizer_config.json"@, Ok(bodies[n + 4])));
        },
    }
}

/// Whether a spec needs a file.
pub open spec fn needs(spec: Spec, file: Seq<char>) -> bool {
    ||| file == spec.file
    ||| spec.additional.contains(file)
    ||| file == "tokenizer.json"@
    ||| file == "config.json"@
    ||| file == "special_tokens_map.json"@
    ||| file == "tokenizer_config.json"@
}

// ---- what is called ------------------------------------------------------------------------

/// Packing a vector gives as few bytes as hold its signs: bit `k % 8` of byte `k / 8`, from the lowest,
/// is set where number `k` is above zero, and no other bit is.
pub proof fn packing_keeps_the_signs(values: &[F32], bytes: Vec<u8>, k: int)
    requires
        call_ensures(quantize::binarize, (values,), bytes),
        0 <= k < 8 * bytes@.len(),
    ensures
        8 * bytes@.len() - 8 < values@.len() <= 8 * bytes@.len(),
        (bytes@[k / 8] & (1u8 << ((k % 8) as u8))) != 0 <==> k < values@.len() && 1
            <= values@[k].bits <= 0x7f80_0000,
{
    signs_are_packed_from_the_lowest_bit(values@, bytes@, k);
}

/// A query and a document are embedded whole, each behind its own prefix.
pub proof fn texts_are_embedded_whole(
    embedder: &Embedder,
    given: &str,
    query: String,
    document: String,
)
    requires
        call_ensures(Embedder::prefixed_query, (embedder, given), query),
        call_ensures(Embedder::prefixed_document, (embedder, given), document),
    ensures
        embedder@.query_prefix.is_prefix_of(query@),
        query@.skip(embedder@.query_prefix.len() as int) == given@,
        embedder@.document_prefix.is_prefix_of(document@),
        document@.skip(embedder@.document_prefix.len() as int) == given@,
{
    assert(query@.skip(embedder@.query_prefix.len() as int) =~= given@);
    assert(document@.skip(embedder@.document_prefix.len() as int) =~= given@);
}

/// By default, documents are cut to the window but for two special tokens, at least to one token, with
/// an overlap of 64; those of fewer than five tokens are left out, and none of their chunks.
pub proof fn default_chunks_fit_the_window(embedder: &Embedder, max: usize, r: ChunkOptions)
    requires
        call_ensures(Embedder::default_chunk_options, (embedder,), r),
        embedder@.max_tokens() == Some(max),
    ensures
        max >= 3 ==> r.max_tokens + 2 == max,
        max < 3 ==> r.max_tokens == 1,
        r.overlap_tokens == 64,
        r.min_tokens == 5,
        r.max_chunks is None,
{
}

/// A file that the listing lacks is refused, and named with its repository and commit.
pub proof fn unlisted_files_are_refused<C: HubClient>(
    client: &C,
    spec: Spec,
    tree: Map<Seq<char>, Option<String>>,
    file: Seq<char>,
    r: Result<Seq<u8>, Seq<char>>,
)
    requires
        hub::read_from(client, spec, tree, file, r),
        !tree.dom().contains(file),
    ensures
        r == Err::<Seq<u8>, Seq<char>>(
            spec.repo + "@"@ + spec.revision + ": `"@ + file + "` is not in the repo"@,
        ),
{
}

/// A file that is listed is read from the repository and commit of the spec.
pub proof fn listed_files_are_read_from_the_spec<C: HubClient>(
    client: &C,
    spec: Spec,
    tree: Map<Seq<char>, Option<String>>,
    file: Seq<char>,
    r: Result<Seq<u8>, Seq<char>>,
) -> (reply: Result<Seq<u8>, Seq<char>>)
    requires
        hub::read_from(client, spec, tree, file, r),
        tree.dom().contains(file),
    ensures
        hub::served_by(client, spec.repo, spec.revision, file, reply),
        r is Ok ==> r == reply,
        reply is Err ==> r == reply,
{
    let reply = choose|reply: Result<Seq<u8>, Seq<char>>| #[trigger]
        hub::served_by(client, spec.repo, spec.revision, file, reply) && r == hub::accepted(
            tree,
            file,
            reply,
        );
    reply
}

// ---- what is told --------------------------------------------------------------------------

/// The outputs of a graph with their ranks, as `a:2D, b:3D`.
pub open spec fn labels(outputs: Seq<(Seq<char>, usize)>) -> Seq<char> {
    text::joined(
        Seq::new(
            outputs.len(),
            |i: int| outputs[i].0 + ":"@ + text::digits(outputs[i].1 as nat) + "D"@,
        ),
        ", "@,
    )
}

/// The outputs of a graph are told by name and rank, all of them and in their order.
pub proof fn outputs_are_told_in_order(desc: &GraphDesc, names: String)
    requires
        call_ensures(graph::output_names, (desc,), names),
    ensures
        names@ == labels(desc@.outputs),
{
    lemma_labels(desc@.outputs);
}

proof fn lemma_labels(outputs: Seq<(Seq<char>, usize)>)
    ensures
        graph::output_labels(outputs) == labels(outputs),
{
    assert(outputs.map_values(|o: (Seq<char>, usize)| graph::output_label(o)) =~= Seq::new(
        outputs.len(),
        |i: int| outputs[i].0 + ":"@ + text::digits(outputs[i].1 as nat) + "D"@,
    ));
}

/// A graph whose inputs can all be fed and that is still refused tells why: which output is missing, or
/// how many there are to declare one of; which output is no tensor, or needs a pooling; or which width
/// is not among the declared ones.
pub proof fn refused_graphs_tell_why(
    graph: Graph,
    spec: Spec,
    meta: Option<PoolingMeta>,
    widths: Option<Seq<usize>>,
    o: int,
)
    requires
        forall|i: int| 0 <= i < graph.inputs.len() ==> fed(#[trigger] graph.inputs[i]),
    ensures
        ({
            let r = graph::validated(graph, spec, meta, widths);
            let none = forall|p: int| !#[trigger] is_read(graph, spec.output, p);
            &&& none && spec.output is Some ==> r == Err::<Selected, Seq<char>>(
                "declared output `"@ + spec.output->0 + "` is not in the graph (has: "@ + labels(
                    graph.outputs,
                ) + ")"@,
            )
            &&& none && spec.output is None ==> r == Err::<Selected, Seq<char>>(
                "graph has "@ + text::digits(graph.outputs.len()) + " outputs ("@ + labels(
                    graph.outputs,
                ) + "); declare one with `with_output(name)`"@,
            )
            &&& is_read(graph, spec.output, o) && graph.outputs[o].1 == 0 ==> r == Err::<
                Selected,
                Seq<char>,
            >("output `"@ + graph.outputs[o].0 + "` is not a tensor"@)
            &&& is_read(graph, spec.output, o) && graph.outputs[o].1 == 3 && spec.pooling is None
                ==> r == Err::<Selected, Seq<char>>(
                "output `"@ + graph.outputs[o].0
                    + "` is 3-D; declare `with_pooling(Pooling::Cls|Mean)`"@,
            )
            &&& is_read(graph, spec.output, o) && can_be_pooled(graph, spec.pooling, meta, o)
                && !may_be_stored(spec.truncate_to, widths) ==> r is Err && ("truncated width "@
                + text::digits(spec.truncate_to->0 as nat)
                + " is not among the declared matryoshka_dimensions "@).is_prefix_of(r->Err_0)
        }),
{
    lemma_all_fed(graph.inputs);
    lemma_labels(graph.outputs);
    if is_read(graph, spec.output, o) {
        if let Some(name) = spec.output {
            lemma_first_output(graph.outputs, name, 0, o);
        }
    }
    match spec.output {
        Some(name) => {
            if graph::output_from(graph.outputs, name, 0) is Some {
                let p = lemma_found_output(graph.outputs, name, 0);
                assert(is_read(graph, spec.output, p));
            }
        },
        None => {
            if graph.outputs.len() == 1 {
                assert(is_read(graph, spec.output, 0));
            }
        },
    }
}

/// A model that is not loaded tells why: that it gave no probe, or both widths that do not fit, or the
/// one that does not fill bytes, or what may fail of its tokenizer.
pub proof fn refused_models_tell_why(
    spec: Spec,
    from_metadata: bool,
    width: usize,
    query_prefix: Seq<char>,
    document_prefix: Seq<char>,
    tokenizer: tokenizers::Tokenizer,
)
    ensures
        embed::loaded(spec, from_metadata, None, query_prefix, document_prefix, tokenizer) == Err::<
            EmbedderModel,
            Seq<char>,
        >("the model returned no probe embedding"@),
        ({
            let r = embed::loaded(
                spec,
                from_metadata,
                Some(width),
                query_prefix,
                document_prefix,
                tokenizer,
            );
            let fits = width == spec.native_dim;
            let wide = spec.truncate_to is Some && spec.truncate_to->0 > width;
            &&& !fits ==> r == Err::<EmbedderModel, Seq<char>>(
                "native width "@ + text::digits(width as nat)
                    + " does not match the declared dim "@ + text::digits(spec.native_dim),
            )
            &&& fits && width % 8 != 0 ==> r == Err::<EmbedderModel, Seq<char>>(
                "native width "@ + text::digits(width as nat)
                    + " is not a multiple of 8 (8 sign bits per byte)"@,
            )
            &&& fits && width % 8 == 0 && wide ==> r == Err::<EmbedderModel, Seq<char>>(
                "truncated width "@ + text::digits(spec.truncate_to->0 as nat)
                    + " exceeds the native width "@ + text::digits(width as nat),
            )
            &&& fits && width % 8 == 0 && !wide ==> (tokens::refusal(tokens::untruncated(tokenizer))
                matches Some(m) ==> r == Err::<EmbedderModel, Seq<char>>(m))
        }),
{
}

/// Pooling flags of another repository are read from its listing: none where it lists none, and else
/// from that repository and commit.
pub proof fn other_repositories_are_listed_first<C: HubClient>(
    client: &C,
    repo: Seq<char>,
    revision: Seq<char>,
    r: Result<Option<PoolingMeta>, Seq<char>>,
) -> (listing: Result<Map<Seq<char>, Option<String>>, Seq<char>>)
    requires
        hub::pooling_elsewhere(client, repo, revision, r),
    ensures
        hub::listed_by(client, repo, revision, listing),
        listing matches Err(m) ==> r == Err::<Option<PoolingMeta>, Seq<char>>(m),
        listing matches Ok(tree) ==> {
            &&& !tree.dom().contains("1_Pooling/config.json"@) ==> r == Ok::<
                Option<PoolingMeta>,
                Seq<char>,
            >(None)
            &&& tree.dom().contains("1_Pooling/config.json"@) ==> exists|
                reply: Result<Seq<u8>, Seq<char>>,
            | #[trigger]
                hub::served_by(client, repo, revision, "1_Pooling/config.json"@, reply)
                    && pooling_read(tree, reply, r)
        },
{
    choose|listing: Result<Map<Seq<char>, Option<String>>, Seq<char>>| #[trigger]
        hub::listed_by(client, repo, revision, listing) && match listing {
            Err(m) => r == Err::<Option<PoolingMeta>, Seq<char>>(m),
            Ok(tree) => if tree.dom().contains(hub::POOLING_FILE@) {
                hub::pooling_from(client, repo, revision, tree, r)
            } else {
                r == Ok::<Option<PoolingMeta>, Seq<char>>(None)
            },
        }
}

} // verus!
