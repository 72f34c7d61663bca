//! What holds of the client as a whole.

use crate::chunk::laws as chunk_laws;
use crate::chunk::plan;
use crate::chunk::{self, Chunk, ChunkOptions, Row, TokenSpan};
use crate::embed_api::prompts;
use crate::embed_api::response;
use crate::embed_api::{self, Api, EmbeddingApi};
use crate::error::Error;
use crate::float::F32;
use crate::json::laws::{self as json_laws, Doc};
use crate::json::{self, Json};
use crate::sort;
use crate::text;
use crate::tokens;
use vstd::prelude::*;

verus! {

broadcast use vstd::seq::group_seq_axioms;

/// The elements of the batches, one batch after the other.
pub open spec fn joined<T>(batches: Seq<Seq<T>>) -> Seq<T>
    decreases batches.len(),
{
    if batches.len() == 0 {
        Seq::empty()
    } else {
        batches[0] + joined(batches.drop_first())
    }
}

/// Batching loses nothing and keeps the order; no batch is empty or larger than allowed.
pub proof fn batching_keeps_the_inputs<T>(inputs: Seq<T>, size: int)
    requires
        size > 0,
    ensures
        joined(embed_api::batched(inputs, size)) == inputs,
        forall|i: int|
            0 <= i < embed_api::batched(inputs, size).len() ==> 0 < (
            #[trigger] embed_api::batched(inputs, size)[i]).len() <= size,
    decreases inputs.len(),
{
    if inputs.len() > size {
        let rest = inputs.skip(size);
        batching_keeps_the_inputs(rest, size);
        let all = embed_api::batched(inputs, size);
        assert(all.drop_first() =~= embed_api::batched(rest, size));
        assert(inputs =~= inputs.take(size) + rest);
        assert forall|i: int| 0 <= i < all.len() implies 0 < (#[trigger] all[i]).len() <= size by {
            if i > 0 {
                assert(all[i] == all.drop_first()[i - 1]);
            }
        }
    } else if inputs.len() > 0 {
        let all = embed_api::batched(inputs, size);
        assert(all.drop_first() =~= Seq::empty());
        assert(joined(all.drop_first()) =~= Seq::empty());
        assert(joined(all) =~= inputs);
    }
}

/// All batches but the last are full: no more requests are sent than needed.
pub proof fn batches_are_full<T>(inputs: Seq<T>, size: int, i: int)
    requires
        size > 0,
        0 <= i < embed_api::batched(inputs, size).len() - 1,
    ensures
        embed_api::batched(inputs, size)[i].len() == size,
    decreases inputs.len(),
{
    if inputs.len() > size && i > 0 {
        let rest = inputs.skip(size);
        batches_are_full(rest, size, i - 1);
        assert(embed_api::batched(inputs, size)[i] == embed_api::batched(rest, size)[i - 1]);
    }
}

/// No input, no request.
pub proof fn nothing_is_sent_for_nothing<T>(size: int)
    ensures
        embed_api::batched(Seq::<T>::empty(), size) == Seq::<Seq<T>>::empty(),
{
}

/// A response restores the order of its inputs, however its items come: they come out by their
/// indices.
pub proof fn responses_restore_order(items: Seq<(usize, Vec<F32>)>, vectors: Seq<Vec<F32>>)
    requires
        vectors.len() <= usize::MAX,
        items.to_multiset() == sort::numbered(vectors).to_multiset(),
    ensures
        response::ordered(items, vectors.len() as usize) == Ok::<Seq<Seq<F32>>, Seq<char>>(
            vectors.map_values(|v: Vec<F32>| v@),
        ),
{
    sort::sorting_restores_numbered(items, vectors);
    let list = sort::numbered(vectors);
    lemma_in_place(list, 0);
    assert(list.map_values(|item: (usize, Vec<F32>)| item.1@) =~= vectors.map_values(
        |v: Vec<F32>| v@,
    ));
}

proof fn lemma_in_place<V>(items: Seq<(usize, V)>, from: int)
    requires
        0 <= from <= items.len(),
        forall|i: int| 0 <= i < items.len() ==> (#[trigger] items[i]).0 == i,
    ensures
        response::misplaced_from(items, from) is None,
    decreases items.len() - from,
{
    if from < items.len() {
        assert(items[from].0 == from);
        lemma_in_place(items, from + 1);
    }
}

/// Batches may end in any order: their vectors come out in the order of the batches, each
/// batch's in its own order.
pub proof fn batches_restore_order(
    batches: Seq<(usize, Vec<Vec<F32>>)>,
    answers: Seq<Vec<Vec<F32>>>,
)
    requires
        answers.len() <= usize::MAX,
        batches.to_multiset() == sort::numbered(answers).to_multiset(),
    ensures
        response::concatenated(sort::sorted(batches)) == joined(
            answers.map_values(|a: Vec<Vec<F32>>| chunk::vectors(a@)),
        ),
{
    sort::sorting_restores_numbered(batches, answers);
    lemma_concatenated(answers);
}

proof fn lemma_concatenated(answers: Seq<Vec<Vec<F32>>>)
    ensures
        response::concatenated(sort::numbered(answers)) == joined(
            answers.map_values(|a: Vec<Vec<F32>>| chunk::vectors(a@)),
        ),
    decreases answers.len(),
{
    let all = answers.map_values(|a: Vec<Vec<F32>>| chunk::vectors(a@));
    if answers.len() > 0 {
        let rest = answers.drop_last();
        lemma_concatenated(rest);
        assert(sort::numbered(answers).drop_last() =~= sort::numbered(rest));
        assert(all.drop_last() =~= rest.map_values(|a: Vec<Vec<F32>>| chunk::vectors(a@)));
        lemma_joined_last(all);
    }
}

proof fn lemma_joined_last<T>(batches: Seq<Seq<T>>)
    requires
        batches.len() > 0,
    ensures
        joined(batches) == joined(batches.drop_last()) + batches.last(),
    decreases batches.len(),
{
    let rest = batches.drop_first();
    if rest.len() == 0 {
        assert(joined(rest) =~= Seq::empty());
        assert(joined(batches.drop_last()) =~= Seq::empty());
        assert(joined(batches) =~= batches.last());
    } else {
        lemma_joined_last(rest);
        assert(batches.drop_last().drop_first() =~= rest.drop_last());
        assert(rest.last() == batches.last());
        assert(joined(batches) =~= joined(batches.drop_last()) + batches.last());
    }
}

/// A response is accepted only if it has exactly one vector per input.
pub proof fn accepted_responses_are_complete(items: Seq<(usize, Vec<F32>)>, expected: usize)
    requires
        response::ordered(items, expected) is Ok,
    ensures
        items.len() == expected,
        response::ordered(items, expected)->Ok_0.len() == expected,
        forall|i: int|
            0 <= i < items.len() ==> (#[trigger] sort::sorted(items)[i]).0 == i,
{
    sort::sorted_is_a_sorted_permutation(items);
    let list = sort::sorted(items);
    assert forall|i: int| 0 <= i < items.len() implies (#[trigger] list[i]).0 == i by {
        lemma_none_misplaced(list, 0, i);
    }
}

proof fn lemma_none_misplaced<V>(items: Seq<(usize, V)>, from: int, i: int)
    requires
        0 <= from <= i < items.len(),
        response::misplaced_from(items, from) is None,
    ensures
        items[i].0 == i,
    decreases i - from,
{
    if from < i {
        lemma_none_misplaced(items, from + 1, i);
    }
}

/// A response whose items cannot be put in place is refused, with the first index that is out of place
/// and where it stands; one with too few or too many items, with how many it has and should have.
pub proof fn refusals_tell_what_is_out_of_place(
    items: Seq<(usize, Vec<F32>)>,
    expected: usize,
    p: int,
)
    requires
        forall|i: int| 0 <= i < p ==> (#[trigger] sort::sorted(items)[i]).0 == i,
        0 <= p <= items.len(),
    ensures
        p < items.len() && sort::sorted(items)[p].0 != p ==> response::ordered(items, expected)
            == Err::<Seq<Seq<F32>>, Seq<char>>(
            "embeddings response index "@ + text::digits(sort::sorted(items)[p].0 as nat)
                + " out of order at position "@ + text::digits(p as nat),
        ),
        p == items.len() && items.len() != expected ==> response::ordered(items, expected) == Err::<
            Seq<Seq<F32>>,
            Seq<char>,
        >(
            "embeddings response has "@ + text::digits(items.len()) + " items, expected "@
                + text::digits(expected as nat),
        ),
{
    sort::sorted_is_a_sorted_permutation(items);
    let list = sort::sorted(items);
    if p < items.len() && list[p].0 != p {
        lemma_first_misplaced(list, 0, p);
    } else if p == items.len() {
        lemma_in_place(list, 0);
    }
}

proof fn lemma_first_misplaced<V>(items: Seq<(usize, V)>, from: int, p: int)
    requires
        0 <= from <= p < items.len(),
        forall|i: int| 0 <= i < p ==> (#[trigger] items[i]).0 == i,
        items[p].0 != p,
    ensures
        response::misplaced_from(items, from) == Some(p),
    decreases p - from,
{
    if from < p {
        assert(items[from].0 == from);
        lemma_first_misplaced(items, from + 1, p);
    }
}

/// What a client shows of itself does not depend on its key.
pub proof fn keys_are_never_shown(a: Api, b: Api)
    requires
        (Api { api_key: a.api_key, ..b }) == a,
    ensures
        (Api { api_key: "<redacted>"@, ..a }) == (Api { api_key: "<redacted>"@, ..b }),
{
}

/// Every client sends at least one input at a time, and asks for at least 32 dimensions, if for any.
pub proof fn clients_ask_for_what_can_be_had(api: Api)
    ensures
        api.wf() <==> api.max_batch_size >= 1 && (api.dims is Some ==> api.dims->0 >= 32),
{
}

// ---- requests ------------------------------------------------------------------------------

/// Whether `members` are those of a request for the vectors of `inputs`: the model, the inputs in
/// order, the encoding, the dimensions exactly where some are asked for, the service tier exactly
/// where one is set, and nothing else.
pub open spec fn asks_for(
    members: Seq<(Seq<char>, Doc)>,
    api: Api,
    inputs: Seq<Seq<char>>,
) -> bool {
    &&& json_laws::named_once(members)
    &&& json_laws::has(members, "model"@, Doc::Text(api.model))
    &&& json_laws::has(members, "input"@, Doc::List(json_laws::text_docs(inputs)))
    &&& json_laws::has(members, "encoding_format"@, Doc::Text("float"@))
    &&& match api.dims {
        Some(n) => json_laws::has(members, "dimensions"@, Doc::Number(n as nat)),
        None => json_laws::lacks(members, "dimensions"@),
    }
    &&& match api.service_tier {
        Some(tier) => json_laws::has(members, "service_tier"@, Doc::Text(tier)),
        None => json_laws::lacks(members, "service_tier"@),
    }
    &&& members.len() == 3 + (if api.dims is Some {
        1int
    } else {
        0
    }) + (if api.service_tier is Some {
        1int
    } else {
        0
    })
}

/// The fixed texts of a request are the punctuation of an object, and the names of its members.
proof fn lemma_punctuation()
    ensures
        "{\"model\":"@ == seq!['{'] + (json::quoted("model"@) + seq![':']),
        ",\"input\":["@ == seq![','] + (json::quoted("input"@) + (seq![':'] + seq!['['])),
        "],\"encoding_format\":\"float\""@ == seq![']'] + (seq![','] + (json::quoted(
            "encoding_format"@,
        ) + (seq![':'] + json::quoted("float"@)))),
        ",\"dimensions\":"@ == seq![','] + (json::quoted("dimensions"@) + seq![':']),
        ",\"service_tier\":"@ == seq![','] + (json::quoted("service_tier"@) + seq![':']),
        "}"@ == seq!['}'],
{
    reveal_strlit("model");
    reveal_strlit("input");
    reveal_strlit("encoding_format");
    reveal_strlit("float");
    reveal_strlit("dimensions");
    reveal_strlit("service_tier");
    reveal_strlit("{\"model\":");
    reveal_strlit(",\"input\":[");
    reveal_strlit("],\"encoding_format\":\"float\"");
    reveal_strlit(",\"dimensions\":");
    reveal_strlit(",\"service_tier\":");
    reveal_strlit("}");
    json_laws::lemma_plain_name("model"@);
    json_laws::lemma_plain_name("input"@);
    json_laws::lemma_plain_name("encoding_format"@);
    json_laws::lemma_plain_name("float"@);
    json_laws::lemma_plain_name("dimensions"@);
    json_laws::lemma_plain_name("service_tier"@);
    assert("{\"model\":"@ =~= seq!['{'] + (json::quoted("model"@) + seq![':']));
    assert(",\"input\":["@ =~= seq![','] + (json::quoted("input"@) + (seq![':'] + seq!['['])));
    assert("],\"encoding_format\":\"float\""@ =~= seq![']'] + (seq![','] + (json::quoted(
        "encoding_format"@,
    ) + (seq![':'] + json::quoted("float"@)))));
    assert(",\"dimensions\":"@ =~= seq![','] + (json::quoted("dimensions"@) + seq![':']));
    assert(",\"service_tier\":"@ =~= seq![','] + (json::quoted("service_tier"@) + seq![':']));
    assert("}"@ =~= seq!['}']);
}

/// The members of a request.
spec fn request_members(api: Api, inputs: Seq<Seq<char>>) -> Seq<(Seq<char>, Doc)> {
    let base = seq![
        ("model"@, Doc::Text(api.model)),
        ("input"@, Doc::List(json_laws::text_docs(inputs))),
        ("encoding_format"@, Doc::Text("float"@)),
    ];
    let sized = match api.dims {
        Some(n) => base.push(("dimensions"@, Doc::Number(n as nat))),
        None => base,
    };
    match api.service_tier {
        Some(tier) => sized.push(("service_tier"@, Doc::Text(tier))),
        None => sized,
    }
}

proof fn lemma_request_members(api: Api, inputs: Seq<Seq<char>>)
    ensures
        asks_for(request_members(api, inputs), api, inputs),
{
    reveal_strlit("model");
    reveal_strlit("input");
    reveal_strlit("encoding_format");
    reveal_strlit("dimensions");
    reveal_strlit("service_tier");
    let members = request_members(api, inputs);
    assert("model"@[0] != "input"@[0]);
    assert("model"@.len() == 5 && "input"@.len() == 5 && "encoding_format"@.len() == 15);
    assert("dimensions"@.len() == 10 && "service_tier"@.len() == 12);
    assert(members[0] == ("model"@, Doc::Text(api.model)));
    assert(members[1] == ("input"@, Doc::List(json_laws::text_docs(inputs))));
    assert(members[2] == ("encoding_format"@, Doc::Text("float"@)));
    if let Some(n) = api.dims {
        assert(members[3] == ("dimensions"@, Doc::Number(n as nat)));
        if let Some(tier) = api.service_tier {
            assert(members[4] == ("service_tier"@, Doc::Text(tier)));
        }
    } else if let Some(tier) = api.service_tier {
        assert(members[3] == ("service_tier"@, Doc::Text(tier)));
    }
}

/// The members of every request.
spec fn base_members(api: Api, inputs: Seq<Seq<char>>) -> Seq<(Seq<char>, Doc)> {
    Seq::<(Seq<char>, Doc)>::empty().push(("model"@, Doc::Text(api.model))).push(
        ("input"@, Doc::List(json_laws::text_docs(inputs))),
    ).push(("encoding_format"@, Doc::Text("float"@)))
}

proof fn lemma_base(api: Api, inputs: Seq<Seq<char>>)
    ensures
        "{\"model\":"@ + json::quoted(api.model) + ",\"input\":["@ + text::joined(
            embed_api::quoted_all(inputs),
            ","@,
        ) + "],\"encoding_format\":\"float\""@ == seq!['{'] + json_laws::members_written(
            base_members(api, inputs),
        ),
{
    lemma_punctuation();
    let docs = json_laws::text_docs(inputs);
    let list = text::joined(embed_api::quoted_all(inputs), ","@);
    assert(json_laws::written(Doc::List(docs)) == seq!['['] + list + seq![']']) by {
        json_laws::lemma_items_joined(docs);
        assert(docs.map_values(|d: Doc| json_laws::written(d)) =~= embed_api::quoted_all(inputs));
    }
    let none = Seq::<(Seq<char>, Doc)>::empty();
    let one = none.push(("model"@, Doc::Text(api.model)));
    let two = one.push(("input"@, Doc::List(docs)));
    json_laws::lemma_member_behind(none, "model"@, Doc::Text(api.model));
    json_laws::lemma_member_behind(one, "input"@, Doc::List(docs));
    json_laws::lemma_member_behind(two, "encoding_format"@, Doc::Text("float"@));
    lemma_pieces(
        json::quoted("model"@),
        json::quoted(api.model),
        json::quoted("input"@),
        list,
        json::quoted("encoding_format"@),
        json::quoted("float"@),
    );
}

/// The pieces of an object are the same, however they are put together.
proof fn lemma_pieces(
    a: Seq<char>,
    x: Seq<char>,
    b: Seq<char>,
    y: Seq<char>,
    c: Seq<char>,
    z: Seq<char>,
)
    ensures
        (seq!['{'] + (a + seq![':'])) + x + (seq![','] + (b + (seq![':'] + seq!['[']))) + y + (
        seq![']'] + (seq![','] + (c + (seq![':'] + z)))) == seq!['{'] + ((((((Seq::<char>::empty()
            + a + seq![':'] + x) + seq![',']) + b + seq![':'] + (seq!['['] + y + seq![']'])))
            + seq![',']) + c + seq![':'] + z),
{
    let first = Seq::<char>::empty() + a + seq![':'] + x;
    let second = seq![','] + b + seq![':'] + (seq!['['] + y + seq![']']);
    let third = seq![','] + c + seq![':'] + z;
    assert((seq!['{'] + (a + seq![':'])) + x =~= seq!['{'] + first);
    assert((seq![','] + (b + (seq![':'] + seq!['[']))) + y + seq![']'] =~= second);
    assert(seq![','] + (c + (seq![':'] + z)) =~= third);
    assert((((((first) + seq![',']) + b + seq![':'] + (seq!['['] + y + seq![']'])))
        + seq![',']) + c + seq![':'] + z =~= first + second + third);
    assert((seq!['{'] + (a + seq![':'])) + x + (seq![','] + (b + (seq![':'] + seq!['[']))) + y + (
    seq![']'] + (seq![','] + (c + (seq![':'] + z)))) =~= (seq!['{'] + first) + ((seq![','] + (b + (
    seq![':'] + seq!['[']))) + y + seq![']']) + third);
    assert((seq!['{'] + first) + second + third =~= seq!['{'] + (first + second + third));
}

/// A request body is a JSON object: the model, the inputs in order, the encoding, the dimensions
/// exactly where some are asked for, the service tier exactly where one is set, each whatever the
/// other is, and nothing else.
pub proof fn bodies_ask_for_what_is_configured(api: Api, inputs: Seq<Seq<char>>) -> (members: Seq<
    (Seq<char>, Doc),
>)
    ensures
        embed_api::body_text(api, inputs) == json_laws::written(Doc::Object(members)),
        asks_for(members, api, inputs),
{
    let members = request_members(api, inputs);
    lemma_request_members(api, inputs);
    lemma_base(api, inputs);
    let three = base_members(api, inputs);
    let head = "{\"model\":"@ + json::quoted(api.model) + ",\"input\":["@ + text::joined(
        embed_api::quoted_all(inputs),
        ","@,
    ) + "],\"encoding_format\":\"float\""@;
    let sized = match api.dims {
        Some(n) => three.push(("dimensions"@, Doc::Number(n as nat))),
        None => three,
    };
    let dims = match api.dims {
        Some(n) => ",\"dimensions\":"@ + text::digits(n as nat),
        None => Seq::empty(),
    };
    let tier = match api.service_tier {
        Some(tier) => ",\"service_tier\":"@ + json::quoted(tier),
        None => Seq::empty(),
    };
    assert(head + dims == seq!['{'] + json_laws::members_written(sized)) by {
        if let Some(n) = api.dims {
            lemma_punctuation();
            json_laws::lemma_member_behind(three, "dimensions"@, Doc::Number(n as nat));
            lemma_more(
                json_laws::members_written(three),
                json::quoted("dimensions"@),
                text::digits(n as nat),
            );
        } else {
            assert(head + dims =~= head);
        }
    }
    assert(head + dims + tier == seq!['{'] + json_laws::members_written(members)) by {
        assert(three =~= seq![
            ("model"@, Doc::Text(api.model)),
            ("input"@, Doc::List(json_laws::text_docs(inputs))),
            ("encoding_format"@, Doc::Text("float"@)),
        ]);
        if let Some(tier) = api.service_tier {
            lemma_punctuation();
            json_laws::lemma_member_behind(sized, "service_tier"@, Doc::Text(tier));
            lemma_more(
                json_laws::members_written(sized),
                json::quoted("service_tier"@),
                json::quoted(tier),
            );
        } else {
            assert(head + dims + tier =~= head + dims);
        }
    }
    assert("}"@ == seq!['}']) by {
        lemma_punctuation();
    }
    members
}

/// One more member, however it is put behind the others.
proof fn lemma_more(before: Seq<char>, name: Seq<char>, value: Seq<char>)
    ensures
        (seq!['{'] + before) + ((seq![','] + (name + seq![':'])) + value) == seq!['{'] + ((before
            + seq![',']) + name + seq![':'] + value),
{
    assert((seq!['{'] + before) + ((seq![','] + (name + seq![':'])) + value) =~= seq!['{'] + ((
    before + seq![',']) + name + seq![':'] + value));
}

// ---- planned rows --------------------------------------------------------------------------

/// Every row belongs to a document of the batch that has at least `opts.min_tokens` tokens, and
/// its chunk is a non-blank slice of that document. So a document below the minimum has no row.
pub proof fn rows_are_slices_of_their_documents(
    tokenizer: tokenizers::Tokenizer,
    texts: Seq<Seq<char>>,
    opts: ChunkOptions,
    rows: Seq<Row>,
    i: int,
)
    requires
        Api::planned(tokenizer, texts, opts, Ok(rows)),
        0 <= i < rows.len(),
    ensures
        0 <= rows[i].doc_ix < texts.len(),
        chunk_laws::slice_of(rows[i].chunk, texts[rows[i].doc_ix], opts.window()),
        exists|spans: Seq<TokenSpan>| #[trigger]
            tokens::spanned_by(tokenizer, texts[rows[i].doc_ix], Ok(spans)) && spans.len()
                >= opts.min_tokens,
{
    let docs = plan::rows_come_of_chunks(Api::cuts(tokenizer, opts), texts, rows);
    chunk_laws::rows_point_back(docs, i);
    let d = rows[i].doc_ix;
    let s = texts[d];
    let spans = lemma_cut(tokenizer, s, opts, docs[d]);
    chunk_laws::chunks_are_slices(s, spans, opts, rows[i].chunk_ix);
}

/// The tokens that a document was cut by.
proof fn lemma_cut(
    tokenizer: tokenizers::Tokenizer,
    s: Seq<char>,
    opts: ChunkOptions,
    chunks: Seq<Chunk>,
) -> (spans: Seq<TokenSpan>)
    requires
        Api::document_chunked(tokenizer, s, opts, Ok(chunks)),
    ensures
        tokens::spanned_by(tokenizer, s, Ok(spans)),
        chunks == (if spans.len() < opts.min_tokens {
            Seq::empty()
        } else {
            chunk::chunks(s, spans, opts)
        }),
{
    let found = choose|spans: Result<Seq<TokenSpan>, Seq<char>>| #[trigger]
        tokens::spanned_by(tokenizer, s, spans) && Ok::<Seq<Chunk>, Seq<char>>(chunks)
            == match spans {
            Err(m) => Err::<Seq<Chunk>, Seq<char>>(m),
            Ok(spans) => if spans.len() < opts.min_tokens {
                Ok(Seq::empty())
            } else {
                Ok(chunk::chunks(s, spans, opts))
            },
        };
    found->Ok_0
}

/// Planned rows come out ordered by document and chunk, none of them twice.
pub proof fn planned_rows_are_ordered(
    tokenizer: tokenizers::Tokenizer,
    texts: Seq<Seq<char>>,
    opts: ChunkOptions,
    rows: Seq<Row>,
    i: int,
    j: int,
)
    requires
        Api::planned(tokenizer, texts, opts, Ok(rows)),
        0 <= i < j < rows.len(),
    ensures
        chunk_laws::row_before(rows[i], rows[j]),
{
    let docs = plan::rows_come_of_chunks(Api::cuts(tokenizer, opts), texts, rows);
    chunk_laws::rows_are_ordered(docs, i, j);
}

/// No content is lost: without a cap, the rows of a document with enough tokens hold all that is
/// not blank in any of them. The tokens are those that the document was cut by, and must be in
/// order.
pub proof fn no_document_token_is_lost(
    tokenizer: tokenizers::Tokenizer,
    texts: Seq<Seq<char>>,
    opts: ChunkOptions,
    rows: Seq<Row>,
    d: int,
) -> (spans: Seq<TokenSpan>)
    requires
        opts.max_chunks is None,
        Api::planned(tokenizer, texts, opts, Ok(rows)),
        0 <= d < texts.len(),
    ensures
        tokens::spanned_by(tokenizer, texts[d], Ok(spans)),
        spans.len() >= opts.min_tokens && chunk_laws::ordered(texts[d], spans) ==> forall|
            t: int,
            k: int,
        |
            0 <= t < spans.len() && 0 <= k < texts[d].len() && !text::whitespace(texts[d][k])
                && #[trigger] chunk_laws::inside(
                texts[d],
                k,
                spans[t].start as int,
                spans[t].end as int,
            ) ==> exists|i: int|
                0 <= i < rows.len() && (#[trigger] rows[i]).doc_ix == d && chunk_laws::inside(
                    texts[d],
                    k,
                    rows[i].chunk.byte_start,
                    rows[i].chunk.byte_end,
                ),
{
    let docs = plan::rows_come_of_chunks(Api::cuts(tokenizer, opts), texts, rows);
    let s = texts[d];
    let spans = lemma_cut(tokenizer, s, opts, docs[d]);
    if spans.len() >= opts.min_tokens && chunk_laws::ordered(s, spans) {
        assert forall|t: int, k: int|
            0 <= t < spans.len() && 0 <= k < s.len() && !text::whitespace(s[k])
                && #[trigger] chunk_laws::inside(
                s,
                k,
                spans[t].start as int,
                spans[t].end as int,
            ) implies exists|i: int|
            0 <= i < rows.len() && (#[trigger] rows[i]).doc_ix == d && chunk_laws::inside(
                s,
                k,
                rows[i].chunk.byte_start,
                rows[i].chunk.byte_end,
            ) by {
            plan::rows_hold_their_tokens(docs, d, s, spans, opts, t, k);
        }
    }
    spans
}

/// The rows of a document are its chunks under the given options, all of them and in their order, if it
/// has enough tokens; else it has none.
pub proof fn rows_are_the_chunks_of_their_documents(
    tokenizer: tokenizers::Tokenizer,
    texts: Seq<Seq<char>>,
    opts: ChunkOptions,
    rows: Seq<Row>,
    d: int,
) -> (spans: Seq<TokenSpan>)
    requires
        Api::planned(tokenizer, texts, opts, Ok(rows)),
        0 <= d < texts.len(),
    ensures
        tokens::spanned_by(tokenizer, texts[d], Ok(spans)),
        spans.len() < opts.min_tokens ==> forall|i: int|
            0 <= i < rows.len() ==> (#[trigger] rows[i]).doc_ix != d,
        spans.len() >= opts.min_tokens ==> {
            let chunks = chunk::chunks(texts[d], spans, opts);
            &&& forall|c: int|
                0 <= c < chunks.len() ==> rows.contains(
                    (Row { doc_ix: d, chunk_ix: c, chunk: #[trigger] chunks[c] }),
                )
            &&& forall|i: int|
                0 <= i < rows.len() && (#[trigger] rows[i]).doc_ix == d ==> 0 <= rows[i].chunk_ix
                    < chunks.len() && rows[i].chunk == chunks[rows[i].chunk_ix]
        },
{
    let docs = plan::rows_come_of_chunks(Api::cuts(tokenizer, opts), texts, rows);
    let spans = lemma_cut(tokenizer, texts[d], opts, docs[d]);
    assert forall|i: int| 0 <= i < rows.len() && (#[trigger] rows[i]).doc_ix == d implies 0
        <= rows[i].chunk_ix < docs[d].len() && rows[i].chunk == docs[d][rows[i].chunk_ix] by {
        chunk_laws::rows_point_back(docs, i);
    }
    assert forall|c: int| 0 <= c < docs[d].len() implies rows.contains(
        (Row { doc_ix: d, chunk_ix: c, chunk: #[trigger] docs[d][c] }),
    ) by {
        let i = chunk_laws::rows_are_complete(docs, d, c);
        assert(rows[i] == (Row { doc_ix: d, chunk_ix: c, chunk: docs[d][c] }));
    }
    spans
}

// ---- prompts -------------------------------------------------------------------------------

/// The prompts of a configuration are the texts that its `prompts` object, or the one element of a
/// list, holds under the two keys.
pub proof fn prompts_are_those_under_their_keys(
    config: Seq<u8>,
    members: Map<Seq<char>, Json>,
    held: Map<Seq<char>, Json>,
    query_key: Seq<char>,
    document_key: Seq<char>,
    query: Seq<char>,
    document: Seq<char>,
)
    requires
        ({
            ||| json::parsed(config) == Ok::<Json, Seq<char>>(Json::Object(members))
                && members.dom().contains("prompts"@) && members["prompts"@] == Json::Object(held)
            ||| json::parsed(config) == Ok::<Json, Seq<char>>(
                Json::Array(seq![Json::Object(held)]),
            )
        }),
        forall|k: Seq<char>| #[trigger] held.dom().contains(k) ==> held[k] is Text,
    ensures
        held.dom().contains(query_key) && held[query_key] == Json::Text(query)
            && held.dom().contains(document_key) && held[document_key] == Json::Text(document)
            ==> prompts::prompts_at(config, query_key, document_key) == Ok::<
            (Seq<char>, Seq<char>),
            Seq<char>,
        >((query, document)),
        !held.dom().contains(query_key) ==> prompts::prompts_at(config, query_key, document_key)
            == Err::<(Seq<char>, Seq<char>), Seq<char>>(
            "prompts has no key `"@ + query_key + "`"@,
        ),
        held.dom().contains(query_key) && !held.dom().contains(document_key) ==> prompts::prompts_at(
            config,
            query_key,
            document_key,
        ) == Err::<(Seq<char>, Seq<char>), Seq<char>>("prompts has no key `"@ + document_key + "`"@),
{
    assert(prompts::all_texts(held));
}

/// A configuration has no prompts if it has no `prompts`, or they are null; it is refused if they are
/// anything but texts under names.
pub proof fn other_prompts_are_refused(
    config: Seq<u8>,
    members: Map<Seq<char>, Json>,
    query_key: Seq<char>,
    document_key: Seq<char>,
)
    requires
        json::parsed(config) == Ok::<Json, Seq<char>>(Json::Object(members)),
    ensures
        ({
            let r = prompts::prompts_at(config, query_key, document_key);
            &&& !members.dom().contains("prompts"@) || members["prompts"@] is Null ==> r == Err::<
                (Seq<char>, Seq<char>),
                Seq<char>,
            >("config_sentence_transformers.json has no `prompts` map"@)
            &&& members.dom().contains("prompts"@) && members["prompts"@] !is Null
                && members["prompts"@] !is Object ==> r == Err::<
                (Seq<char>, Seq<char>),
                Seq<char>,
            >("parse config_sentence_transformers.json: expected a `prompts` map of texts"@)
            &&& members.dom().contains("prompts"@) && (members["prompts"@] matches Json::Object(held)
                && exists|k: Seq<char>| #[trigger] held.dom().contains(k) && held[k] !is Text)
                ==> r == Err::<(Seq<char>, Seq<char>), Seq<char>>(
                "parse config_sentence_transformers.json: expected a `prompts` map of texts"@,
            )
        }),
{
}

/// A configuration that is no JSON, or is neither an object nor a list, is refused with its cause.
pub proof fn unreadable_prompts_are_refused(
    config: Seq<u8>,
    query_key: Seq<char>,
    document_key: Seq<char>,
)
    ensures
        json::parsed(config) matches Err(cause) ==> prompts::prompts_at(
            config,
            query_key,
            document_key,
        ) == Err::<(Seq<char>, Seq<char>), Seq<char>>(
            "parse config_sentence_transformers.json: "@ + cause,
        ),
        json::parsed(config) matches Ok(j) && j !is Object && j !is Array ==> prompts::prompts_at(
            config,
            query_key,
            document_key,
        ) is Err,
{
}

// ---- what is called ------------------------------------------------------------------------

/// A body that is built is a JSON object that asks for what is configured.
pub proof fn built_bodies_ask_for_what_is_configured(
    api: &EmbeddingApi,
    inputs: &Vec<String>,
    body: String,
) -> (members: Seq<(Seq<char>, Doc)>)
    requires
        call_ensures(EmbeddingApi::build_body, (api, inputs), body),
    ensures
        body@ == json_laws::written(Doc::Object(members)),
        asks_for(members, api@, text::texts(inputs@)),
{
    bodies_ask_for_what_is_configured(api@, text::texts(inputs@))
}

/// Requests go to the `embeddings` path behind the base URL.
pub proof fn requests_go_to_the_embeddings_path(api: &EmbeddingApi, url: String)
    requires
        call_ensures(EmbeddingApi::url, (api,), url),
    ensures
        api@.base_url.is_prefix_of(url@),
        url@.skip(api@.base_url.len() as int) == "/embeddings"@,
{
    assert(url@.skip(api@.base_url.len() as int) =~= "/embeddings"@);
}

/// A query is sent whole, behind the query prefix.
pub proof fn queries_are_sent_whole(api: &EmbeddingApi, query: &str, input: String)
    requires
        call_ensures(EmbeddingApi::query_input, (api, query), input),
    ensures
        api@.query_prefix.is_prefix_of(input@),
        input@.skip(api@.query_prefix.len() as int) == query@,
{
    assert(input@.skip(api@.query_prefix.len() as int) =~= query@);
}

/// By default, documents are cut to the declared window but for two special tokens, at least to one
/// token, with an overlap of 64; those of fewer than five tokens are left out, and none of their chunks.
pub proof fn default_chunks_fit_the_window(
    api: &EmbeddingApi,
    max: usize,
    r: Result<ChunkOptions, Error>,
)
    requires
        call_ensures(EmbeddingApi::default_chunk_options, (api,), r),
    ensures
        r is Ok <==> api@.max_tokens is Some,
        api@.max_tokens == Some(max) ==> {
            &&& max >= 3 ==> r->Ok_0.max_tokens + 2 == max
            &&& max < 3 ==> r->Ok_0.max_tokens == 1
            &&& r->Ok_0.overlap_tokens == 64
            &&& r->Ok_0.min_tokens == 5
            &&& r->Ok_0.max_chunks is None
        },
{
}

} // verus!
