use vstd::prelude::*;
use indexmap::IndexMap;
use crate::diff::{has_key, has_name, texts, Component, ComponentModel};
use crate::topology::name_in;

verus! {

#[verifier::external_type_specification]
#[verifier::external_body]
#[verifier::reject_recursive_types(K)]
#[verifier::reject_recursive_types(V)]
#[verifier::reject_recursive_types(S)]
pub struct ExIndexMap<K, V, S>(IndexMap<K, V, S>);

/// The mathematical content of a `PipelineTransform`.
pub struct PipelineTransformModel {
    pub inner: ComponentModel,
    pub outputs: Seq<Seq<char>>,
}

/// Named transforms of one pipeline, in insertion order.
pub type TransformEntries = Seq<(Seq<char>, PipelineTransformModel)>;

/// Named pipelines, in insertion order.
pub type PipelineEntries = Seq<(Seq<char>, TransformEntries)>;

/// What a map of transforms holds, in its order.
pub uninterp spec fn transform_entries(m: IndexMap<String, PipelineTransform>) -> TransformEntries;

/// What a map of pipelines holds, in its order.
pub uninterp spec fn pipeline_entries(m: IndexMap<String, Pipeline>) -> PipelineEntries;

/// Relies on `IndexMap::new`: an empty map.
#[verifier::external_body]
fn transforms_new() -> (r: IndexMap<String, PipelineTransform>)
    ensures
        transform_entries(r) == TransformEntries::empty(),
{
    IndexMap::new()
}

/// Relies on `IndexMap::len`: the number of entries.
#[verifier::external_body]
fn transforms_len(m: &IndexMap<String, PipelineTransform>) -> (r: usize)
    ensures
        r == transform_entries(*m).len(),
{
    m.len()
}

/// Relies on `IndexMap::get_index`: the entry at a position of the order.
#[verifier::external_body]
fn transform_at(m: &IndexMap<String, PipelineTransform>, i: usize) -> (r: Option<(&String, &PipelineTransform)>)
    ensures
        i < transform_entries(*m).len() ==> r is Some && r.unwrap().0@ == transform_entries(*m)[i as int].0
            && r.unwrap().1@ == transform_entries(*m)[i as int].1,
        i >= transform_entries(*m).len() ==> r is None,
{
    m.get_index(i)
}

/// Relies on `IndexMap::contains_key`: whether a key is present.
#[verifier::external_body]
fn transforms_contain(m: &IndexMap<String, PipelineTransform>, key: &String) -> (r: bool)
    ensures
        r == has_key(transform_entries(*m), key@),
{
    m.contains_key(key.as_str())
}

/// Relies on `IndexMap::insert`: a present key keeps its place and takes the
/// new value, handing back the old one; a new key goes last.
#[verifier::external_body]
fn transforms_insert(m: &mut IndexMap<String, PipelineTransform>, key: String, value: PipelineTransform) -> (r: Option<PipelineTransform>)
    ensures
        has_key(transform_entries(*old(m)), key@) ==> r is Some && transform_entries(*final(m))
            == transform_entries(*old(m)).update(
            crate::diff::find_key(transform_entries(*old(m)), key@),
            (key@, value@),
        ) && r->0@ == transform_entries(*old(m))[crate::diff::find_key(transform_entries(*old(m)), key@)].1,
        !has_key(transform_entries(*old(m)), key@) ==> r is None && transform_entries(*final(m))
            == transform_entries(*old(m)).push((key@, value@)),
{
    m.insert(key, value)
}

/// Relies on `IndexMap::new`: an empty map.
#[verifier::external_body]
fn pipelines_new() -> (r: IndexMap<String, Pipeline>)
    ensures
        pipeline_entries(r) == PipelineEntries::empty(),
{
    IndexMap::new()
}

/// Relies on `IndexMap::len`: the number of entries.
#[verifier::external_body]
fn pipelines_len(m: &IndexMap<String, Pipeline>) -> (r: usize)
    ensures
        r == pipeline_entries(*m).len(),
{
    m.len()
}

/// Relies on `IndexMap::get_index`: the entry at a position of the order.
#[verifier::external_body]
fn pipeline_at(m: &IndexMap<String, Pipeline>, i: usize) -> (r: Option<(&String, &Pipeline)>)
    ensures
        i < pipeline_entries(*m).len() ==> r is Some && r.unwrap().0@ == pipeline_entries(*m)[i as int].0
            && r.unwrap().1@ == pipeline_entries(*m)[i as int].1,
        i >= pipeline_entries(*m).len() ==> r is None,
{
    m.get_index(i)
}

/// Relies on `IndexMap::insert`: a present key keeps its place and takes the
/// new value, handing back the old one; a new key goes last.
#[verifier::external_body]
fn pipelines_insert(m: &mut IndexMap<String, Pipeline>, key: String, value: Pipeline) -> (r: Option<Pipeline>)
    ensures
        has_key(pipeline_entries(*old(m)), key@) ==> r is Some && pipeline_entries(*final(m))
            == pipeline_entries(*old(m)).update(
            crate::diff::find_key(pipeline_entries(*old(m)), key@),
            (key@, value@),
        ) && r->0@ == pipeline_entries(*old(m))[crate::diff::find_key(pipeline_entries(*old(m)), key@)].1,
        !has_key(pipeline_entries(*old(m)), key@) ==> r is None && pipeline_entries(*final(m))
            == pipeline_entries(*old(m)).push((key@, value@)),
{
    m.insert(key, value)
}

/// A transform declared inside a pipeline, with the outer components it
/// feeds.
#[derive(Debug)]
pub struct PipelineTransform {
    pub inner: Component,
    pub outputs: Vec<String>,
}

impl View for PipelineTransform {
    type V = PipelineTransformModel;

    open spec fn view(&self) -> PipelineTransformModel {
        PipelineTransformModel { inner: self.inner@, outputs: texts(self.outputs@) }
    }
}

/// A named group of transforms, flattened into the outer graph before use.
#[derive(Debug)]
pub struct Pipeline {
    pub transforms: IndexMap<String, PipelineTransform>,
}

impl View for Pipeline {
    type V = TransformEntries;

    open spec fn view(&self) -> TransformEntries {
        transform_entries(self.transforms)
    }
}

/// The inputs and outputs that the outer graph declares, which pipelines may
/// refer to.
#[derive(Debug)]
pub struct ConfigBuilder {
    pub inputs: Vec<String>,
    pub outputs: Vec<String>,
}

impl ConfigBuilder {
    /// Whether the outer graph declares an input of that name.
    pub fn has_input(&self, name: &String) -> (r: bool)
        ensures
            r == has_name(texts(self.inputs@), name@),
    {
        name_in(&self.inputs, name)
    }

    /// Whether the outer graph declares an output of that name.
    pub fn has_output(&self, name: &String) -> (r: bool)
        ensures
            r == has_name(texts(self.outputs@), name@),
    {
        name_in(&self.outputs, name)
    }
}

/// Which side of a transform a reference is on.
#[derive(Debug, Clone, Copy, PartialEq, Eq, Structural)]
pub enum ShapeKind {
    Input,
    Output,
}

/// A reference in a pipeline that resolves to nothing.
#[derive(Debug)]
pub struct ShapeError {
    pub kind: ShapeKind,
    /// The name that was referred to.
    pub reference: String,
    /// The transform that refers to it.
    pub transform: String,
    /// The pipeline that holds the transform.
    pub pipeline: String,
}

/// The mathematical content of a `ShapeError`.
pub struct ShapeErrorModel {
    pub kind: ShapeKind,
    pub reference: Seq<char>,
    pub transform: Seq<char>,
    pub pipeline: Seq<char>,
}

impl View for ShapeError {
    type V = ShapeErrorModel;

    open spec fn view(&self) -> ShapeErrorModel {
        ShapeErrorModel {
            kind: self.kind,
            reference: self.reference@,
            transform: self.transform@,
            pipeline: self.pipeline@,
        }
    }
}

/// The errors held by a vector, as models.
pub open spec fn error_models(v: Seq<ShapeError>) -> Seq<ShapeErrorModel> {
    v.map_values(|e: ShapeError| e@)
}

/// The names of the outer graph that a reference of this kind may resolve to.
pub open spec fn known_names(kind: ShapeKind, config: ConfigBuilder) -> Seq<Seq<char>> {
    match kind {
        ShapeKind::Input => texts(config.inputs@),
        ShapeKind::Output => texts(config.outputs@),
    }
}

/// A reference resolves within the pipeline, to one of its transforms, or to
/// a name that the outer graph declares on that side (its inputs for an
/// input, its outputs for an output).
pub open spec fn resolves(
    kind: ShapeKind,
    r: Seq<char>,
    known: Seq<Seq<char>>,
    local: TransformEntries,
) -> bool {
    has_name(known, r) || has_key(local, r)
}

/// The references of a transform on one side.
pub open spec fn refs_of(kind: ShapeKind, t: PipelineTransformModel) -> Seq<Seq<char>> {
    match kind {
        ShapeKind::Input => t.inner.inputs,
        ShapeKind::Output => t.outputs,
    }
}

/// Errors for the references among `refs` that resolve to nothing, in order.
pub open spec fn ref_errors(
    kind: ShapeKind,
    pipeline: Seq<char>,
    transform: Seq<char>,
    refs: Seq<Seq<char>>,
    known: Seq<Seq<char>>,
    local: TransformEntries,
) -> Seq<ShapeErrorModel>
    decreases refs.len(),
{
    if refs.len() == 0 {
        Seq::empty()
    } else {
        let before = ref_errors(kind, pipeline, transform, refs.drop_last(), known, local);
        if resolves(kind, refs.last(), known, local) {
            before
        } else {
            before.push(
                ShapeErrorModel { kind, reference: refs.last(), transform, pipeline },
            )
        }
    }
}

/// Errors for the transforms among `ts`, transform after transform.
pub open spec fn transforms_errors(
    kind: ShapeKind,
    pipeline: Seq<char>,
    ts: TransformEntries,
    known: Seq<Seq<char>>,
    local: TransformEntries,
) -> Seq<ShapeErrorModel>
    decreases ts.len(),
{
    if ts.len() == 0 {
        Seq::empty()
    } else {
        transforms_errors(kind, pipeline, ts.drop_last(), known, local) + ref_errors(
            kind,
            pipeline,
            ts.last().0,
            refs_of(kind, ts.last().1),
            known,
            local,
        )
    }
}

/// Errors for the pipelines among `ps`, pipeline after pipeline.
pub open spec fn pipelines_errors(
    kind: ShapeKind,
    ps: PipelineEntries,
    known: Seq<Seq<char>>,
) -> Seq<ShapeErrorModel>
    decreases ps.len(),
{
    if ps.len() == 0 {
        Seq::empty()
    } else {
        pipelines_errors(kind, ps.drop_last(), known) + transforms_errors(
            kind,
            ps.last().0,
            ps.last().1,
            known,
            ps.last().1,
        )
    }
}


/// The (pipeline, transform) name pairs of one pipeline's transforms.
pub open spec fn keys_in(pipeline: Seq<char>, ts: TransformEntries) -> Seq<(Seq<char>, Seq<char>)>
    decreases ts.len(),
{
    if ts.len() == 0 {
        Seq::empty()
    } else {
        keys_in(pipeline, ts.drop_last()).push((pipeline, ts.last().0))
    }
}

/// The (pipeline, transform) name pairs of all pipelines, in order.
pub open spec fn all_keys(ps: PipelineEntries) -> Seq<(Seq<char>, Seq<char>)>
    decreases ps.len(),
{
    if ps.len() == 0 {
        Seq::empty()
    } else {
        all_keys(ps.drop_last()) + keys_in(ps.last().0, ps.last().1)
    }
}

/// The outputs of one pipeline's transforms, in order.
pub open spec fn outputs_in(ts: TransformEntries) -> Seq<Seq<char>>
    decreases ts.len(),
{
    if ts.len() == 0 {
        Seq::empty()
    } else {
        outputs_in(ts.drop_last()) + ts.last().1.outputs
    }
}

/// The outputs of the transforms of all pipelines, in order.
pub open spec fn all_outputs(ps: PipelineEntries) -> Seq<Seq<char>>
    decreases ps.len(),
{
    if ps.len() == 0 {
        Seq::empty()
    } else {
        all_outputs(ps.drop_last()) + outputs_in(ps.last().1)
    }
}


/// `m` after inserting `v` under `k`: in place when present, last otherwise.
pub open spec fn insert_entry(m: PipelineEntries, k: Seq<char>, v: TransformEntries) -> PipelineEntries {
    if has_key(m, k) {
        m.update(crate::diff::find_key(m, k), (k, v))
    } else {
        m.push((k, v))
    }
}

/// The pipelines of the loaded entries, inserted in order.
pub open spec fn loaded_pipelines(es: Seq<Result<(String, Pipeline), String>>) -> PipelineEntries
    decreases es.len(),
{
    if es.len() == 0 {
        PipelineEntries::empty()
    } else {
        match es.last() {
            Ok(p) => insert_entry(loaded_pipelines(es.drop_last()), p.0@, p.1@),
            Err(_) => loaded_pipelines(es.drop_last()),
        }
    }
}

/// The error messages of the loaded entries, in order.
pub open spec fn load_errors(es: Seq<Result<(String, Pipeline), String>>) -> Seq<Seq<char>>
    decreases es.len(),
{
    if es.len() == 0 {
        Seq::empty()
    } else {
        match es.last() {
            Ok(_) => load_errors(es.drop_last()),
            Err(e) => load_errors(es.drop_last()).push(e@),
        }
    }
}

/// Pipelines by name.
#[derive(Debug)]
pub struct Pipelines(pub IndexMap<String, Pipeline>);

impl View for Pipelines {
    type V = PipelineEntries;

    open spec fn view(&self) -> PipelineEntries {
        pipeline_entries(self.0)
    }
}

impl From<IndexMap<String, Pipeline>> for Pipelines {
    fn from(value: IndexMap<String, Pipeline>) -> (r: Self) {
        Pipelines(value)
    }
}

impl vstd::std_specs::convert::FromSpecImpl<IndexMap<String, Pipeline>> for Pipelines {
    open spec fn obeys_from_spec() -> bool {
        true
    }

    open spec fn from_spec(v: IndexMap<String, Pipeline>) -> Pipelines {
        Pipelines(v)
    }
}

impl Pipelines {
    /// No pipelines.
    pub fn new() -> (r: Pipelines)
        ensures
            r@ == PipelineEntries::empty(),
    {
        Pipelines(pipelines_new())
    }

    /// Adds a pipeline under `id`, replacing one of the same name in place.
    pub fn insert(&mut self, id: String, pipeline: Pipeline) -> (r: Option<Pipeline>)
        ensures
            has_key(old(self)@, id@) ==> r is Some && final(self)@ == old(self)@.update(
                crate::diff::find_key(old(self)@, id@),
                (id@, pipeline@),
            ),
            !has_key(old(self)@, id@) ==> r is None && final(self)@ == old(self)@.push((id@, pipeline@)),
    {
        pipelines_insert(&mut self.0, id, pipeline)
    }

    /// Gathers pipelines that were loaded one by one: all of them when every
    /// load succeeded, otherwise every error message, in order.
    pub fn from_loaded(entries: Vec<Result<(String, Pipeline), String>>) -> (r: Result<
        Pipelines,
        Vec<String>,
    >)
        ensures
            r is Ok <==> load_errors(entries@).len() == 0,
            r is Ok ==> r->Ok_0@ == loaded_pipelines(entries@),
            r is Err ==> texts(r->Err_0@) == load_errors(entries@),
    {
        let ghost all = entries@;
        let mut rest = entries;
        let mut pipelines = Pipelines::new();
        let mut errors: Vec<String> = Vec::new();
        let ghost n = all.len();
        assert(n == rest.len());
        let mut i: usize = 0;
        while rest.len() > 0
            invariant
                i + rest@.len() == n,
                n == all.len(),
                n <= usize::MAX,
                rest@ == all.subrange(i as int, n as int),
                pipelines@ == loaded_pipelines(all.subrange(0, i as int)),
                texts(errors@) == load_errors(all.subrange(0, i as int)),
            decreases rest.len(),
        {
            let entry = rest.remove(0);
            assert(all.subrange(0, i + 1).drop_last() =~= all.subrange(0, i as int));
            assert(all.subrange(0, i + 1).last() == entry);
            match entry {
                Ok((id, pipeline)) => {
                    let _ = pipelines.insert(id, pipeline);
                },
                Err(e) => {
                    let ghost before = errors@;
                    errors.push(e);
                    assert(texts(errors@) =~= texts(before).push(errors@[before.len() as int]@));
                },
            }
            i = i + 1;
            assert(rest@ =~= all.subrange(i as int, n as int));
        }
        assert(all.subrange(0, n as int) =~= all);
        if errors.len() == 0 {
            Ok(pipelines)
        } else {
            Err(errors)
        }
    }

    /// Every (pipeline, transform) pair of names, pipeline by pipeline.
    pub fn transform_keys(&self) -> (r: Vec<(String, String)>)
        ensures
            r@.map_values(|p: (String, String)| (p.0@, p.1@)) == all_keys(self@),
    {
        let ghost ps = self@;
        let mut r: Vec<(String, String)> = Vec::new();
        let n = pipelines_len(&self.0);
        let mut i: usize = 0;
        while i < n
            invariant
                n == ps.len(),
                ps == self@,
                i <= n,
                r@.map_values(|p: (String, String)| (p.0@, p.1@)) == all_keys(ps.subrange(0, i as int)),
            decreases n - i,
        {
            assert(ps.subrange(0, i + 1).drop_last() =~= ps.subrange(0, i as int));
            let ghost outer = r@.map_values(|p: (String, String)| (p.0@, p.1@));
            if let Some((id, pipeline)) = pipeline_at(&self.0, i) {
                let ghost ts = pipeline@;
                let m = transforms_len(&pipeline.transforms);
                let mut j: usize = 0;
                while j < m
                    invariant
                        m == ts.len(),
                        ts == pipeline@,
                        j <= m,
                        r@.map_values(|p: (String, String)| (p.0@, p.1@)) == outer + keys_in(
                            id@,
                            ts.subrange(0, j as int),
                        ),
                    decreases m - j,
                {
                    assert(ts.subrange(0, j + 1).drop_last() =~= ts.subrange(0, j as int));
                    let ghost before = r@;
                    if let Some((name, _t)) = transform_at(&pipeline.transforms, j) {
                        r.push((id.clone(), name.clone()));
                        assert(r@.map_values(|p: (String, String)| (p.0@, p.1@)) =~= before.map_values(
                            |p: (String, String)| (p.0@, p.1@),
                        ).push((id@, name@)));
                    }
                    j = j + 1;
                }
                assert(ts.subrange(0, m as int) =~= ts);
            }
            i = i + 1;
        }
        assert(ps.subrange(0, n as int) =~= ps);
        r
    }

    /// Every output of every transform, pipeline by pipeline.
    pub fn outputs(&self) -> (r: Vec<String>)
        ensures
            texts(r@) == all_outputs(self@),
    {
        let ghost ps = self@;
        let mut r: Vec<String> = Vec::new();
        let n = pipelines_len(&self.0);
        let mut i: usize = 0;
        while i < n
            invariant
                n == ps.len(),
                ps == self@,
                i <= n,
                texts(r@) == all_outputs(ps.subrange(0, i as int)),
            decreases n - i,
        {
            assert(ps.subrange(0, i + 1).drop_last() =~= ps.subrange(0, i as int));
            let ghost outer = texts(r@);
            if let Some((_id, pipeline)) = pipeline_at(&self.0, i) {
                let ghost ts = pipeline@;
                let m = transforms_len(&pipeline.transforms);
                let mut j: usize = 0;
                while j < m
                    invariant
                        m == ts.len(),
                        ts == pipeline@,
                        j <= m,
                        texts(r@) == outer + outputs_in(ts.subrange(0, j as int)),
                    decreases m - j,
                {
                    assert(ts.subrange(0, j + 1).drop_last() =~= ts.subrange(0, j as int));
                    let ghost mid = texts(r@);
                    if let Some((_name, t)) = transform_at(&pipeline.transforms, j) {
                        let mut k: usize = 0;
                        while k < t.outputs.len()
                            invariant
                                k <= t.outputs.len(),
                                texts(r@) == mid + texts(t.outputs@).subrange(0, k as int),
                            decreases t.outputs.len() - k,
                        {
                            let ghost before = r@;
                            r.push(t.outputs[k].clone());
                            assert(texts(r@) =~= texts(before).push(t.outputs@[k as int]@));
                            assert(texts(t.outputs@).subrange(0, k + 1) =~= texts(t.outputs@).subrange(0, k as int).push(t.outputs@[k as int]@));
                            k = k + 1;
                        }
                        assert(texts(t.outputs@).subrange(0, t.outputs.len() as int) =~= texts(t.outputs@));
                    }
                    j = j + 1;
                }
                assert(ts.subrange(0, m as int) =~= ts);
            }
            i = i + 1;
        }
        assert(ps.subrange(0, n as int) =~= ps);
        r
    }

    fn check_refs(&self, kind: ShapeKind, config: &ConfigBuilder, errors: &mut Vec<ShapeError>)
        ensures
            error_models(final(errors)@) == error_models(old(errors)@) + pipelines_errors(
                kind,
                self@,
                known_names(kind, *config),
            ),
    {
        let ghost ps = self@;
        let ghost known = known_names(kind, *config);
        let ghost base = error_models(errors@);
        let n = pipelines_len(&self.0);
        let mut i: usize = 0;
        while i < n
            invariant
                n == ps.len(),
                ps == self@,
                known == known_names(kind, *config),
                i <= n,
                error_models(errors@) == base + pipelines_errors(kind, ps.subrange(0, i as int), known),
            decreases n - i,
        {
            assert(ps.subrange(0, i + 1).drop_last() =~= ps.subrange(0, i as int));
            let ghost outer = error_models(errors@);
            if let Some((id, pipeline)) = pipeline_at(&self.0, i) {
                pipeline.check_refs(kind, id, config, errors);
            }
            assert(outer + transforms_errors(kind, ps[i as int].0, ps[i as int].1, known, ps[i as int].1)
                =~= base + pipelines_errors(kind, ps.subrange(0, i + 1), known));
            i = i + 1;
        }
        assert(ps.subrange(0, n as int) =~= ps);
    }

    /// Appends an error for each input that resolves to nothing, pipeline by
    /// pipeline.
    pub fn check_inputs(&self, config: &ConfigBuilder, errors: &mut Vec<ShapeError>)
        ensures
            error_models(final(errors)@) == error_models(old(errors)@) + pipelines_errors(
                ShapeKind::Input,
                self@,
                texts(config.inputs@),
            ),
    {
        self.check_refs(ShapeKind::Input, config, errors);
    }

    /// Appends an error for each output that resolves to nothing, pipeline by
    /// pipeline.
    pub fn check_outputs(&self, config: &ConfigBuilder, errors: &mut Vec<ShapeError>)
        ensures
            error_models(final(errors)@) == error_models(old(errors)@) + pipelines_errors(
                ShapeKind::Output,
                self@,
                texts(config.outputs@),
            ),
    {
        self.check_refs(ShapeKind::Output, config, errors);
    }

    /// Appends the input errors, then the output errors, of every pipeline.
    pub fn check_shape(&self, config: &ConfigBuilder, errors: &mut Vec<ShapeError>)
        ensures
            error_models(final(errors)@) == error_models(old(errors)@) + pipelines_errors(
                ShapeKind::Input,
                self@,
                texts(config.inputs@),
            ) + pipelines_errors(ShapeKind::Output, self@, texts(config.outputs@)),
    {
        self.check_inputs(config, errors);
        self.check_outputs(config, errors);
    }
}

impl Pipeline {
    /// A pipeline with no transforms.
    pub fn new() -> (r: Pipeline)
        ensures
            r@ == TransformEntries::empty(),
    {
        Pipeline { transforms: transforms_new() }
    }

    /// Adds a transform under `name`, replacing one of the same name in place.
    pub fn insert_transform(&mut self, name: String, transform: PipelineTransform) -> (r: Option<
        PipelineTransform,
    >)
        ensures
            has_key(old(self)@, name@) ==> r is Some && final(self)@ == old(self)@.update(
                crate::diff::find_key(old(self)@, name@),
                (name@, transform@),
            ),
            !has_key(old(self)@, name@) ==> r is None && final(self)@ == old(self)@.push(
                (name@, transform@),
            ),
    {
        transforms_insert(&mut self.transforms, name, transform)
    }

    pub(crate) fn check_refs(
        &self,
        kind: ShapeKind,
        pipeline_id: &String,
        config: &ConfigBuilder,
        errors: &mut Vec<ShapeError>,
    )
        ensures
            error_models(final(errors)@) == error_models(old(errors)@) + transforms_errors(
                kind,
                pipeline_id@,
                self@,
                known_names(kind, *config),
                self@,
            ),
    {
        let ghost ts = self@;
        let ghost known = known_names(kind, *config);
        let ghost base = error_models(errors@);
        let n = transforms_len(&self.transforms);
        let mut i: usize = 0;
        while i < n
            invariant
                n == ts.len(),
                ts == self@,
                known == known_names(kind, *config),
                i <= n,
                error_models(errors@) == base + transforms_errors(
                    kind,
                    pipeline_id@,
                    ts.subrange(0, i as int),
                    known,
                    ts,
                ),
            decreases n - i,
        {
            let ghost outer = error_models(errors@);
            assert(ts.subrange(0, i + 1).drop_last() =~= ts.subrange(0, i as int));
            if let Some((name, t)) = transform_at(&self.transforms, i) {
                let refs = match kind {
                    ShapeKind::Input => &t.inner.inputs,
                    ShapeKind::Output => &t.outputs,
                };
                assert(texts(refs@) == refs_of(kind, ts[i as int].1));
                let mut j: usize = 0;
                while j < refs.len()
                    invariant
                        j <= refs.len(),
                        ts == self@,
                        known == known_names(kind, *config),
                        error_models(errors@) == outer + ref_errors(
                            kind,
                            pipeline_id@,
                            name@,
                            texts(refs@).subrange(0, j as int),
                            known,
                            ts,
                        ),
                    decreases refs.len() - j,
                {
                    let ghost inner = error_models(errors@);
                    let ghost rs = texts(refs@);
                    assert(rs.subrange(0, j + 1).drop_last() =~= rs.subrange(0, j as int));
                    let r = &refs[j];
                    let ok = match kind {
                        ShapeKind::Input => config.has_input(r) || transforms_contain(&self.transforms, r),
                        ShapeKind::Output => config.has_output(r) || transforms_contain(&self.transforms, r),
                    };
                    if !ok {
                        errors.push(
                            ShapeError {
                                kind,
                                reference: r.clone(),
                                transform: name.clone(),
                                pipeline: pipeline_id.clone(),
                            },
                        );
                        assert(error_models(errors@) =~= inner.push(
                            ShapeErrorModel { kind, reference: r@, transform: name@, pipeline: pipeline_id@ },
                        ));
                    }
                    j = j + 1;
                }
                assert(texts(refs@).subrange(0, refs.len() as int) =~= texts(refs@));
            }
            assert(outer + ref_errors(kind, pipeline_id@, ts[i as int].0, refs_of(kind, ts[i as int].1), known, ts)
                =~= base + transforms_errors(kind, pipeline_id@, ts.subrange(0, i + 1), known, ts));
            i = i + 1;
        }
        assert(ts.subrange(0, n as int) =~= ts);
    }

    /// Appends an error for each input of a transform that is neither a
    /// declared input of the outer graph nor a transform of this pipeline.
    pub fn check_inputs(&self, pipeline_id: &String, config: &ConfigBuilder, errors: &mut Vec<ShapeError>)
        ensures
            error_models(final(errors)@) == error_models(old(errors)@) + transforms_errors(
                ShapeKind::Input,
                pipeline_id@,
                self@,
                texts(config.inputs@),
                self@,
            ),
    {
        self.check_refs(ShapeKind::Input, pipeline_id, config, errors);
    }

    /// Appends an error for each output of a transform that is neither a
    /// declared output of the outer graph nor a transform of this pipeline.
    pub fn check_outputs(&self, pipeline_id: &String, config: &ConfigBuilder, errors: &mut Vec<ShapeError>)
        ensures
            error_models(final(errors)@) == error_models(old(errors)@) + transforms_errors(
                ShapeKind::Output,
                pipeline_id@,
                self@,
                texts(config.outputs@),
                self@,
            ),
    {
        self.check_refs(ShapeKind::Output, pipeline_id, config, errors);
    }
}

} // verus!
