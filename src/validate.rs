use vstd::prelude::*;
use crate::diff::{entries, find_entry, has_key, has_name, texts, Component, ComponentModel, Config};
use crate::topology::lemma_has_name_prefix;

verus! {

/// Why a graph was refused.
#[derive(Debug)]
pub enum ConfigError {
    /// A name declared a second time, in any of the three kinds.
    DuplicateName(String),
    /// An input that names neither a source nor a transform.
    UnknownInput { component: String, input: String },
}

/// The mathematical content of a `ConfigError`.
pub enum ConfigErrorModel {
    DuplicateName(Seq<char>),
    UnknownInput(Seq<char>, Seq<char>),
}

impl View for ConfigError {
    type V = ConfigErrorModel;

    open spec fn view(&self) -> ConfigErrorModel {
        match self {
            ConfigError::DuplicateName(n) => ConfigErrorModel::DuplicateName(n@),
            ConfigError::UnknownInput { component, input } => ConfigErrorModel::UnknownInput(
                component@,
                input@,
            ),
        }
    }
}

/// The errors held by a vector, as models.
pub open spec fn config_error_models(v: Seq<ConfigError>) -> Seq<ConfigErrorModel> {
    v.map_values(|e: ConfigError| e@)
}

/// The names of a list of declarations, in order.
pub open spec fn names(s: Seq<(Seq<char>, ComponentModel)>) -> Seq<Seq<char>> {
    s.map_values(|p: (Seq<char>, ComponentModel)| p.0)
}

/// Every name of a graph: sources, then transforms, then sinks.
pub open spec fn all_names(c: Config) -> Seq<Seq<char>> {
    names(entries(c.sources@)) + names(entries(c.transforms@)) + names(entries(c.sinks@))
}

/// An error for each name that repeats one seen before it, in order.
pub open spec fn duplicate_errors(s: Seq<Seq<char>>) -> Seq<ConfigErrorModel>
    decreases s.len(),
{
    if s.len() == 0 {
        Seq::empty()
    } else if has_name(s.drop_last(), s.last()) {
        duplicate_errors(s.drop_last()).push(ConfigErrorModel::DuplicateName(s.last()))
    } else {
        duplicate_errors(s.drop_last())
    }
}

/// Whether `r` names a source or a transform of the graph.
pub open spec fn produces(c: Config, r: Seq<char>) -> bool {
    has_key(entries(c.sources@), r) || has_key(entries(c.transforms@), r)
}

/// An error for each input of `component` that names nothing that produces
/// events, in order.
pub open spec fn input_errors(c: Config, component: Seq<char>, inputs: Seq<Seq<char>>) -> Seq<
    ConfigErrorModel,
>
    decreases inputs.len(),
{
    if inputs.len() == 0 {
        Seq::empty()
    } else if produces(c, inputs.last()) {
        input_errors(c, component, inputs.drop_last())
    } else {
        input_errors(c, component, inputs.drop_last()).push(
            ConfigErrorModel::UnknownInput(component, inputs.last()),
        )
    }
}

/// The input errors of a list of declarations, declaration after declaration.
pub open spec fn inputs_errors(c: Config, s: Seq<(Seq<char>, ComponentModel)>) -> Seq<ConfigErrorModel>
    decreases s.len(),
{
    if s.len() == 0 {
        Seq::empty()
    } else {
        inputs_errors(c, s.drop_last()) + input_errors(c, s.last().0, s.last().1.inputs)
    }
}

/// The name and reference errors of a graph: repeated names, then unknown
/// inputs of transforms, then of sinks. Kinds of events and type tags are
/// checked elsewhere.
pub open spec fn validation_errors(c: Config) -> Seq<ConfigErrorModel> {
    duplicate_errors(all_names(c)) + inputs_errors(c, entries(c.transforms@)) + inputs_errors(
        c,
        entries(c.sinks@),
    )
}

fn push_names(list: &Vec<(String, Component)>, out: &mut Vec<String>)
    ensures
        texts(final(out)@) == texts(old(out)@) + names(entries(list@)),
{
    let ghost base = texts(out@);
    let mut i: usize = 0;
    while i < list.len()
        invariant
            i <= list.len(),
            texts(out@) == base + names(entries(list@)).subrange(0, i as int),
        decreases list.len() - i,
    {
        let ghost before = out@;
        out.push(list[i].0.clone());
        assert(texts(out@) =~= texts(before).push(list@[i as int].0@));
        assert(names(entries(list@)).subrange(0, i + 1) =~= names(entries(list@)).subrange(
            0,
            i as int,
        ).push(list@[i as int].0@));
        i = i + 1;
    }
    assert(names(entries(list@)).subrange(0, list.len() as int) =~= names(entries(list@)));
}

fn name_before(all: &Vec<String>, n: usize) -> (r: bool)
    requires
        n < all.len(),
    ensures
        r == has_name(texts(all@).subrange(0, n as int), all@[n as int]@),
{
    let mut i: usize = 0;
    while i < n
        invariant
            i <= n,
            n < all.len(),
            has_name(texts(all@.subrange(0, i as int)), all@[n as int]@) == false,
        decreases n - i,
    {
        assert(texts(all@.subrange(0, i + 1)).drop_last() =~= texts(all@.subrange(0, i as int)));
        if all[i] == all[n] {
            proof {
                lemma_has_name_prefix(all@.subrange(0, n as int), i as int + 1, all@[n as int]@);
                assert(texts(all@.subrange(0, n as int)) =~= texts(all@).subrange(0, n as int));
            }
            return true;
        }
        i = i + 1;
    }
    assert(texts(all@.subrange(0, n as int)) =~= texts(all@).subrange(0, n as int));
    false
}

fn produces_exec(c: &Config, r: &String) -> (b: bool)
    ensures
        b == produces(*c, r@),
{
    find_entry(&c.sources, r).is_some() || find_entry(&c.transforms, r).is_some()
}

fn push_input_errors(c: &Config, list: &Vec<(String, Component)>, errors: &mut Vec<ConfigError>)
    ensures
        config_error_models(final(errors)@) == config_error_models(old(errors)@) + inputs_errors(
            *c,
            entries(list@),
        ),
{
    let ghost s = entries(list@);
    let ghost base = config_error_models(errors@);
    let mut i: usize = 0;
    while i < list.len()
        invariant
            i <= list.len(),
            s == entries(list@),
            config_error_models(errors@) == base + inputs_errors(*c, s.subrange(0, i as int)),
        decreases list.len() - i,
    {
        assert(s.subrange(0, i + 1).drop_last() =~= s.subrange(0, i as int));
        let ghost outer = config_error_models(errors@);
        let name = &list[i].0;
        let inputs = &list[i].1.inputs;
        let mut j: usize = 0;
        while j < inputs.len()
            invariant
                j <= inputs.len(),
                config_error_models(errors@) == outer + input_errors(
                    *c,
                    name@,
                    texts(inputs@).subrange(0, j as int),
                ),
            decreases inputs.len() - j,
        {
            assert(texts(inputs@).subrange(0, j + 1).drop_last() =~= texts(inputs@).subrange(
                0,
                j as int,
            ));
            let ghost before = config_error_models(errors@);
            if !produces_exec(c, &inputs[j]) {
                errors.push(
                    ConfigError::UnknownInput { component: name.clone(), input: inputs[j].clone() },
                );
                assert(config_error_models(errors@) =~= before.push(
                    ConfigErrorModel::UnknownInput(name@, inputs@[j as int]@),
                ));
            }
            j = j + 1;
        }
        assert(texts(inputs@).subrange(0, inputs.len() as int) =~= texts(inputs@));
        assert(outer + input_errors(*c, s[i as int].0, s[i as int].1.inputs) =~= base
            + inputs_errors(*c, s.subrange(0, i + 1)));
        i = i + 1;
    }
    assert(s.subrange(0, list.len() as int) =~= s);
}

impl Config {
    /// The name and reference errors of the graph, collected rather than
    /// stopping at the first: repeated names, then inputs of transforms and
    /// of sinks that name neither a source nor a transform. Kinds of events
    /// and type tags are not checked here.
    pub fn validation_errors(&self) -> (r: Vec<ConfigError>)
        ensures
            config_error_models(r@) == validation_errors(*self),
    {
        let mut all: Vec<String> = Vec::new();
        push_names(&self.sources, &mut all);
        push_names(&self.transforms, &mut all);
        push_names(&self.sinks, &mut all);
        assert(texts(all@) =~= all_names(*self));
        let ghost s = texts(all@);
        let mut errors: Vec<ConfigError> = Vec::new();
        let mut i: usize = 0;
        while i < all.len()
            invariant
                i <= all.len(),
                s == texts(all@),
                config_error_models(errors@) == duplicate_errors(s.subrange(0, i as int)),
            decreases all.len() - i,
        {
            let ghost before = config_error_models(errors@);
            let ghost post = s.subrange(0, i + 1);
            assert(post.drop_last() =~= s.subrange(0, i as int));
            assert(post.last() == all@[i as int]@);
            if name_before(&all, i) {
                errors.push(ConfigError::DuplicateName(all[i].clone()));
                assert(config_error_models(errors@) =~= before.push(
                    ConfigErrorModel::DuplicateName(all@[i as int]@),
                ));
            }
            i = i + 1;
        }
        assert(s.subrange(0, all.len() as int) =~= s);
        push_input_errors(self, &self.transforms, &mut errors);
        push_input_errors(self, &self.sinks, &mut errors);
        errors
    }

    /// Accepts a graph with no name or reference error; otherwise hands back
    /// all of them.
    pub fn validate(&self) -> (r: Result<(), Vec<ConfigError>>)
        ensures
            r is Ok <==> validation_errors(*self).len() == 0,
            r is Err ==> config_error_models(r->Err_0@) == validation_errors(*self),
    {
        let errors = self.validation_errors();
        if errors.len() == 0 {
            Ok(())
        } else {
            Err(errors)
        }
    }
}

} // verus!
