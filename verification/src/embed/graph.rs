//! Load-time guards: which graph output to read, how to reduce it, and what the loaded model is
//! called.

use crate::embed::spec::{self, ModelSpec, Pooling, PoolingMeta, Spec};
use crate::error::{self, Error};
use crate::text;
use vstd::prelude::*;

verus! {

broadcast use vstd::seq::group_seq_axioms;

/// Plain description of a loaded graph.
#[derive(Debug, PartialEq, Eq)]
pub struct GraphDesc {
    pub inputs: Vec<String>,
    /// Output name and tensor rank (0 = not a tensor, 2 = already pooled, 3 = token-level).
    pub outputs: Vec<(String, usize)>,
}

/// What a [`GraphDesc`] describes.
pub struct Graph {
    pub inputs: Seq<Seq<char>>,
    pub outputs: Seq<(Seq<char>, usize)>,
}

impl View for GraphDesc {
    type V = Graph;

    open spec fn view(&self) -> Graph {
        Graph {
            inputs: text::texts(self.inputs@),
            outputs: self.outputs@.map_values(|o: (String, usize)| (o.0@, o.1)),
        }
    }
}

/// What the guards decided: which output to read, how to reduce it, and how the truncated width
/// was authorised.
#[derive(Debug, PartialEq, Eq)]
pub struct SelectedOutput {
    pub name: String,
    /// `Some` when the selected output is 3-D and has to be pooled.
    pub pooling: Option<Pooling>,
    /// `true` when the truncated width was authorised by the artifact's `matryoshka_dimensions`
    /// (identity suffix `/meta`), `false` when the request itself was the claim (`/spec`).
    pub mrl_from_metadata: bool,
}

/// What a [`SelectedOutput`] holds.
pub struct Selected {
    pub name: Seq<char>,
    pub pooling: Option<Pooling>,
    pub mrl_from_metadata: bool,
}

impl View for SelectedOutput {
    type V = Selected;

    open spec fn view(&self) -> Selected {
        Selected {
            name: self.name@,
            pooling: self.pooling,
            mrl_from_metadata: self.mrl_from_metadata,
        }
    }
}

// ---- inputs --------------------------------------------------------------------------------

/// Inputs that can be fed; a graph needing anything else cannot run in-process.
pub open spec fn feedable(name: Seq<char>) -> bool {
    name == "input_ids"@ || name == "attention_mask"@ || name == "token_type_ids"@
}

/// The inputs that cannot be fed, in order.
pub open spec fn unsupported(inputs: Seq<Seq<char>>) -> Seq<Seq<char>> {
    inputs.filter(|name: Seq<char>| !feedable(name))
}

fn is_feedable(name: &str) -> (r: bool)
    ensures
        r == feedable(name@),
{
    text::same(name, "input_ids") || text::same(name, "attention_mask") || text::same(
        name,
        "token_type_ids",
    )
}

fn unsupported_inputs(inputs: &Vec<String>) -> (r: Vec<String>)
    ensures
        text::texts(r@) == unsupported(text::texts(inputs@)),
{
    let mut out: Vec<String> = Vec::new();
    let mut i: usize = 0;
    let ghost names = text::texts(inputs@);
    reveal(Seq::filter);
    while i < inputs.len()
        invariant
            names == text::texts(inputs@),
            0 <= i <= inputs@.len(),
            text::texts(out@) == unsupported(names.take(i as int)),
        decreases inputs@.len() - i,
    {
        let ghost before = out@;
        let name = inputs[i].as_str();
        proof {
            reveal(Seq::filter);
            assert(names.take(i + 1).drop_last() =~= names.take(i as int));
            assert(names.take(i + 1).last() == name@);
        }
        if !is_feedable(name) {
            out.push(name.to_owned());
            assert(text::texts(out@) =~= text::texts(before).push(name@));
        }
        i += 1;
    }
    assert(names.take(i as int) =~= names);
    out
}

// ---- outputs -------------------------------------------------------------------------------

/// An output with its rank, as `name:2D`.
pub open spec fn output_label(o: (Seq<char>, usize)) -> Seq<char> {
    o.0 + ":"@ + text::digits(o.1 as nat) + "D"@
}

/// The outputs with their ranks, as `a:2D, b:3D`.
pub open spec fn output_labels(outputs: Seq<(Seq<char>, usize)>) -> Seq<char> {
    text::joined(outputs.map_values(|o: (Seq<char>, usize)| output_label(o)), ", "@)
}

/// The outputs with their ranks, as `a:2D, b:3D`.
pub fn output_names(desc: &GraphDesc) -> (r: String)
    ensures
        r@ == output_labels(desc@.outputs),
{
    let mut parts: Vec<String> = Vec::new();
    let ghost labels = desc@.outputs.map_values(|o: (Seq<char>, usize)| output_label(o));
    let mut i: usize = 0;
    while i < desc.outputs.len()
        invariant
            labels == desc@.outputs.map_values(|o: (Seq<char>, usize)| output_label(o)),
            0 <= i <= desc.outputs@.len(),
            text::texts(parts@) == labels.take(i as int),
        decreases desc.outputs@.len() - i,
    {
        let ghost before = parts@;
        let o = &desc.outputs[i];
        let label = o.0.clone().concat(":").concat(text::decimal(o.1 as u64).as_str()).concat("D");
        parts.push(label);
        proof {
            assert(text::texts(parts@) =~= text::texts(before).push(label@));
            assert(labels.take(i + 1) =~= labels.take(i as int).push(labels[i as int]));
        }
        i += 1;
    }
    assert(labels.take(i as int) =~= labels);
    text::join(&parts, ", ")
}

/// The first output from the `i`-th on that is called `name`.
pub open spec fn output_from(outputs: Seq<(Seq<char>, usize)>, name: Seq<char>, i: int) -> Option<
    (Seq<char>, usize),
>
    decreases outputs.len() - i,
{
    if 0 <= i < outputs.len() {
        if outputs[i].0 == name {
            Some(outputs[i])
        } else {
            output_from(outputs, name, i + 1)
        }
    } else {
        None
    }
}

/// The output to read, with its rank: the declared one, else the only one.
pub open spec fn selected(
    outputs: Seq<(Seq<char>, usize)>,
    declared: Option<Seq<char>>,
) -> Result<(Seq<char>, usize), Seq<char>> {
    match declared {
        Some(name) => match output_from(outputs, name, 0) {
            Some(o) => Ok(o),
            None => Err(
                "declared output `"@ + name + "` is not in the graph (has: "@ + output_labels(
                    outputs,
                ) + ")"@,
            ),
        },
        None => if outputs.len() == 1 {
            Ok(outputs[0])
        } else {
            Err(
                "graph has "@ + text::digits(outputs.len()) + " outputs ("@ + output_labels(outputs)
                    + "); declare one with `with_output(name)`"@,
            )
        },
    }
}

fn select_output(desc: &GraphDesc, declared: Option<&'static str>) -> (r: Result<
    (String, usize),
    Error,
>)
    ensures
        match (r, selected(desc@.outputs, declared_view(declared))) {
            (Ok(o), Ok(s)) => (o.0@, o.1) == s,
            (Err(e), Err(m)) => e@ == m,
            _ => false,
        },
{
    match declared {
        Some(name) => {
            let mut i: usize = 0;
            while i < desc.outputs.len()
                invariant
                    0 <= i <= desc.outputs@.len(),
                    declared == Some(name),
                    output_from(desc@.outputs, name@, 0) == output_from(
                        desc@.outputs,
                        name@,
                        i as int,
                    ),
                decreases desc.outputs@.len() - i,
            {
                if text::same(desc.outputs[i].0.as_str(), name) {
                    return Ok((desc.outputs[i].0.clone(), desc.outputs[i].1));
                }
                i += 1;
            }
            Err(
                Error::new(
                    "declared output `".to_owned().concat(name).concat(
                        "` is not in the graph (has: ",
                    ).concat(output_names(desc).as_str()).concat(")"),
                ),
            )
        },
        None => {
            if desc.outputs.len() == 1 {
                Ok((desc.outputs[0].0.clone(), desc.outputs[0].1))
            } else {
                Err(
                    Error::new(
                        "graph has ".to_owned().concat(
                            text::decimal(desc.outputs.len() as u64).as_str(),
                        ).concat(" outputs (").concat(output_names(desc).as_str()).concat(
                            "); declare one with `with_output(name)`",
                        ),
                    ),
                )
            }
        },
    }
}

/// What an optional name holds.
pub open spec fn declared_view(name: Option<&'static str>) -> Option<Seq<char>> {
    match name {
        Some(name) => Some(name@),
        None => None,
    }
}

// ---- pooling -------------------------------------------------------------------------------

/// `true` or `false`.
pub open spec fn bool_text(b: bool) -> Seq<char> {
    if b {
        "true"@
    } else {
        "false"@
    }
}

/// The name of a pooling.
pub open spec fn pooling_text(pooling: Pooling) -> Seq<char> {
    match pooling {
        Pooling::Cls => "Cls"@,
        Pooling::Mean => "Mean"@,
    }
}

/// Why a declared pooling cannot be applied to `output` under the artifact's own
/// `1_Pooling/config.json`, if it cannot.
pub open spec fn pooling_conflict(
    declared: Pooling,
    meta: PoolingMeta,
    output: Seq<char>,
) -> Result<(), Seq<char>> {
    if meta.lasttoken {
        Err(
            "1_Pooling declares last-token pooling, unsupported in-process (output `"@ + output
                + "`)"@,
        )
    } else if meta.max || meta.weightedmean || meta.mean_sqrt_len {
        Err(
            "1_Pooling declares a pooling mode fastembed cannot apply (output `"@ + output + "`)"@,
        )
    } else if meta.include_prompt == Some(false) {
        Err(
            "1_Pooling sets include_prompt: false; fastembed's mean would average the instruction in"@,
        )
    } else if !(match declared {
        Pooling::Cls => meta.cls,
        Pooling::Mean => meta.mean,
    }) {
        Err(
            "declared "@ + pooling_text(declared) + " contradicts 1_Pooling (cls: "@ + bool_text(
                meta.cls,
            ) + ", mean: "@ + bool_text(meta.mean) + ")"@,
        )
    } else {
        Ok(())
    }
}

fn bool_str(b: bool) -> (r: &'static str)
    ensures
        r@ == bool_text(b),
{
    if b {
        "true"
    } else {
        "false"
    }
}

/// Cross-check a declared pooling against the artifact's own `1_Pooling/config.json`.
pub fn check_pooling_meta(declared: Pooling, meta: &PoolingMeta, output: &str) -> (r: Result<
    (),
    Error,
>)
    ensures
        error::verdict(r) == pooling_conflict(declared, *meta, output@),
{
    if meta.lasttoken {
        return Err(
            Error::new(
                "1_Pooling declares last-token pooling, unsupported in-process (output `".to_owned().concat(
                    output,
                ).concat("`)"),
            ),
        );
    }
    if meta.max || meta.weightedmean || meta.mean_sqrt_len {
        return Err(
            Error::new(
                "1_Pooling declares a pooling mode fastembed cannot apply (output `".to_owned().concat(
                    output,
                ).concat("`)"),
            ),
        );
    }
    if let Some(false) = meta.include_prompt {
        return Err(
            Error::new(
                "1_Pooling sets include_prompt: false; fastembed's mean would average the instruction in".to_owned(),
            ),
        );
    }
    let agrees = match declared {
        Pooling::Cls => meta.cls,
        Pooling::Mean => meta.mean,
    };
    if !agrees {
        let name = match declared {
            Pooling::Cls => "Cls",
            Pooling::Mean => "Mean",
        };
        return Err(
            Error::new(
                "declared ".to_owned().concat(name).concat(" contradicts 1_Pooling (cls: ").concat(
                    bool_str(meta.cls),
                ).concat(", mean: ").concat(bool_str(meta.mean)).concat(")"),
            ),
        );
    }
    Ok(())
}

/// How the output `o` is pooled: not at all unless it is 3-D, and then as declared. An output of
/// rank 0 is no tensor, and is rejected.
pub open spec fn pooled(
    o: (Seq<char>, usize),
    declared: Option<Pooling>,
    meta: Option<PoolingMeta>,
) -> Result<Option<Pooling>, Seq<char>> {
    if o.1 == 0 {
        Err("output `"@ + o.0 + "` is not a tensor"@)
    } else if o.1 != 3 {
        Ok(None)
    } else {
        match declared {
            None => Err(
                "output `"@ + o.0 + "` is 3-D; declare `with_pooling(Pooling::Cls|Mean)`"@,
            ),
            Some(pooling) => match meta {
                None => Ok(Some(pooling)),
                Some(meta) => match pooling_conflict(pooling, meta, o.0) {
                    Ok(_) => Ok(Some(pooling)),
                    Err(m) => Err(m),
                },
            },
        }
    }
}

fn choose_pooling(
    name: &str,
    rank: usize,
    declared: Option<Pooling>,
    meta: Option<&PoolingMeta>,
) -> (r: Result<Option<Pooling>, Error>)
    ensures
        error::verdict(r) == pooled((name@, rank), declared, meta_view(meta)),
{
    if rank == 0 {
        return Err(
            Error::new("output `".to_owned().concat(name).concat("` is not a tensor")),
        );
    }
    if rank != 3 {
        return Ok(None);
    }
    let pooling = match declared {
        Some(pooling) => pooling,
        None => return Err(
            Error::new(
                "output `".to_owned().concat(name).concat(
                    "` is 3-D; declare `with_pooling(Pooling::Cls|Mean)`",
                ),
            ),
        ),
    };
    if let Some(meta) = meta {
        if let Err(e) = check_pooling_meta(pooling, meta, name) {
            return Err(e);
        }
    }
    Ok(Some(pooling))
}

/// What optional pooling metadata holds.
pub open spec fn meta_view(meta: Option<&PoolingMeta>) -> Option<PoolingMeta> {
    match meta {
        Some(meta) => Some(*meta),
        None => None,
    }
}

// ---- truncated width -----------------------------------------------------------------------

/// A list of widths, as `[1, 2]`.
pub open spec fn widths_text(widths: Seq<usize>) -> Seq<char> {
    "["@ + text::joined(widths.map_values(|w: usize| text::digits(w as nat)), ", "@) + "]"@
}

fn widths_debug(widths: &[usize]) -> (r: String)
    ensures
        r@ == widths_text(widths@),
{
    let mut parts: Vec<String> = Vec::new();
    let ghost all = widths@.map_values(|w: usize| text::digits(w as nat));
    let mut i: usize = 0;
    while i < widths.len()
        invariant
            all == widths@.map_values(|w: usize| text::digits(w as nat)),
            0 <= i <= widths@.len(),
            text::texts(parts@) == all.take(i as int),
        decreases widths@.len() - i,
    {
        let ghost before = parts@;
        let part = text::decimal(widths[i] as u64);
        parts.push(part);
        proof {
            assert(text::texts(parts@) =~= text::texts(before).push(part@));
            assert(all.take(i + 1) =~= all.take(i as int).push(all[i as int]));
        }
        i += 1;
    }
    assert(all.take(i as int) =~= all);
    "[".to_owned().concat(text::join(&parts, ", ").as_str()).concat("]")
}

/// Whether a truncated width is authorised by the artifact's declared widths. Without a
/// declaration the request itself is the claim; a declared list must have the width.
pub open spec fn authorised(width: Option<usize>, declared: Option<Seq<usize>>) -> Result<
    bool,
    Seq<char>,
> {
    match (width, declared) {
        (Some(width), Some(declared)) => if declared.contains(width) {
            Ok(true)
        } else {
            Err(
                "truncated width "@ + text::digits(width as nat)
                    + " is not among the declared matryoshka_dimensions "@ + widths_text(declared),
            )
        },
        _ => Ok(false),
    }
}

/// What an optional list of widths holds.
pub open spec fn widths_view(widths: Option<&[usize]>) -> Option<Seq<usize>> {
    match widths {
        Some(widths) => Some(widths@),
        None => None,
    }
}

fn authorise(width: Option<usize>, declared: Option<&[usize]>) -> (r: Result<bool, Error>)
    ensures
        error::verdict(r) == authorised(width, widths_view(declared)),
{
    match (width, declared) {
        (Some(dims), Some(widths)) => {
            let mut i: usize = 0;
            while i < widths.len()
                invariant
                    width == Some(dims),
                    declared == Some(widths),
                    0 <= i <= widths@.len(),
                    forall|k: int| 0 <= k < i ==> widths@[k] != dims,
                decreases widths@.len() - i,
            {
                if widths[i] == dims {
                    assert(widths@.contains(dims));
                    return Ok(true);
                }
                i += 1;
            }
            Err(
                Error::new(
                    "truncated width ".to_owned().concat(text::decimal(dims as u64).as_str()).concat(
                        " is not among the declared matryoshka_dimensions ",
                    ).concat(widths_debug(widths).as_str()),
                ),
            )
        },
        _ => Ok(false),
    }
}

// ---- the guards together -------------------------------------------------------------------

/// What the guards decide on a graph under a spec, or the first guard's complaint: about the
/// inputs, the output to read, its pooling, the truncated width.
pub open spec fn validated(
    graph: Graph,
    spec: Spec,
    meta: Option<PoolingMeta>,
    widths: Option<Seq<usize>>,
) -> Result<Selected, Seq<char>> {
    let extra = unsupported(graph.inputs);
    if extra.len() > 0 {
        Err("graph needs inputs fastembed cannot feed: "@ + text::joined(extra, ", "@))
    } else {
        match selected(graph.outputs, spec.output) {
            Err(m) => Err(m),
            Ok(o) => match pooled(o, spec.pooling, meta) {
                Err(m) => Err(m),
                Ok(pooling) => match authorised(spec.truncate_to, widths) {
                    Err(m) => Err(m),
                    Ok(mrl_from_metadata) => Ok(
                        Selected { name: o.0, pooling, mrl_from_metadata },
                    ),
                },
            },
        }
    }
}

/// Validate a loaded graph against the spec: input set, output selection (a
/// tensor), pooling, truncation.
pub fn validate_graph(
    desc: &GraphDesc,
    spec: &ModelSpec,
    pooling_meta: Option<&PoolingMeta>,
    matryoshka_dims: Option<&[usize]>,
) -> (r: Result<SelectedOutput, Error>)
    ensures
        error::outcome(r) == validated(
            desc@,
            spec@,
            meta_view(pooling_meta),
            widths_view(matryoshka_dims),
        ),
{
    let extra = unsupported_inputs(&desc.inputs);
    if extra.len() > 0 {
        return Err(
            Error::new(
                "graph needs inputs fastembed cannot feed: ".to_owned().concat(
                    text::join(&extra, ", ").as_str(),
                ),
            ),
        );
    }
    let (name, rank) = match select_output(desc, spec.output()) {
        Ok(o) => o,
        Err(e) => return Err(e),
    };
    let pooling = match choose_pooling(name.as_str(), rank, spec.pooling(), pooling_meta) {
        Ok(pooling) => pooling,
        Err(e) => return Err(e),
    };
    let width = match spec.truncate_to() {
        Some(dims) => Some(dims.get()),
        None => None,
    };
    match authorise(width, matryoshka_dims) {
        Ok(mrl_from_metadata) => Ok(SelectedOutput { name, pooling, mrl_from_metadata }),
        Err(e) => Err(e),
    }
}

// ---- identity ------------------------------------------------------------------------------

/// Identity of the model that `spec` describes: `{repo}/{file}@{revision}#d{effective}`, with
/// `/meta` or `/spec` behind it when truncated.
pub open spec fn identity(spec: Spec, mrl_from_metadata: bool) -> Seq<char> {
    let base = spec.repo + "/"@ + spec.file + "@"@ + spec.revision + "#d"@ + text::digits(
        spec.effective(),
    );
    if spec.truncate_to is None {
        base
    } else if mrl_from_metadata {
        base + "/meta"@
    } else {
        base + "/spec"@
    }
}

/// Identity written into every embedding row: `{repo}/{file}@{revision}#d{effective}`, plus
/// `/meta` or `/spec` when truncated.
pub fn model_id(spec: &ModelSpec, mrl_from_metadata: bool) -> (r: String)
    ensures
        r@ == identity(spec@, mrl_from_metadata),
{
    let effective: usize = match spec.truncate_to() {
        Some(dims) => dims.get(),
        None => spec.native_dim(),
    };
    let base = spec.repo().to_owned().concat("/").concat(spec.file()).concat("@").concat(
        spec.revision(),
    ).concat("#d").concat(text::decimal(effective as u64).as_str());
    if spec.truncate_to().is_none() {
        base
    } else if mrl_from_metadata {
        base.concat("/meta")
    } else {
        base.concat("/spec")
    }
}

} // verus!
