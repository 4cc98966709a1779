//! The registry of templates, by name.

use vstd::prelude::*;
use crate::errors::{result_of, Error};
use crate::parse::{parsed, ParseError, PartView};
use crate::reflect_render::Renderer;
use crate::render::template_outcome;
use crate::template::Template;
use crate::value::Value;

verus! {

/// The registry as a map from names to templates: of two entries with one
/// name the later one counts.
pub open spec fn registry(entries: Seq<(String, Template)>) -> Map<Seq<char>, Seq<PartView>>
    decreases entries.len(),
{
    if entries.len() == 0 {
        Map::empty()
    } else {
        registry(entries.drop_last()).insert(entries.last().0@, entries.last().1@)
    }
}

/// Why a set of sources is no registry: the source of this name is not a
/// template, for this reason.
#[derive(Debug, PartialEq, Eq)]
pub enum TemplateLoadError {
    Parse { name: String, error: ParseError },
}

/// The position of the first source from `i` on that is not a template, or
/// the number of sources where all of them are.
pub open spec fn first_failure(sources: Seq<(String, String)>, i: int) -> int
    decreases sources.len() - i,
{
    if i < 0 || i >= sources.len() {
        sources.len() as int
    } else if parsed(sources[i].1@) is Err {
        i
    } else {
        first_failure(sources, i + 1)
    }
}

/// The registry of the first `n` sources, each under its name: of two
/// sources with one name the later one counts.
pub open spec fn loaded(sources: Seq<(String, String)>, n: int) -> Map<Seq<char>, Seq<PartView>>
    decreases n,
{
    if n <= 0 || n > sources.len() {
        Map::empty()
    } else {
        loaded(sources, n - 1).insert(sources[n - 1].0@, parsed(sources[n - 1].1@).unwrap())
    }
}

/// Whether an entry of a directory is the source of a template: it is
/// where it is a regular file whose extension is one of `extensions`.
pub fn selected(is_file: bool, extension: Option<&str>, extensions: &Vec<String>) -> (r: bool)
    ensures
        r == (is_file && extension is Some && exists|i: int|
            0 <= i < extensions@.len() && (#[trigger] extensions@[i])@ == extension->Some_0@),
{
    if !is_file {
        return false;
    }
    match extension {
        None => false,
        Some(found) => {
            let wanted = found.to_owned();
            let mut i: usize = 0;
            while i < extensions.len()
                invariant
                    i <= extensions.len(),
                    is_file,
                    extension == Some(found),
                    wanted@ == found@,
                    forall|k: int| 0 <= k < i ==> (#[trigger] extensions@[k])@ != found@,
                decreases extensions.len() - i,
            {
                if extensions[i] == wanted {
                    return true;
                }
                i += 1;
            }
            false
        },
    }
}

/// A set of templates that can be rendered, and can include one another, by
/// name. The templates are kept in the order in which they were given; of
/// two with one name the later one is the one that is found.
pub struct Templates {
    templates: Vec<(String, Template)>,
}

impl View for Templates {
    type V = Map<Seq<char>, Seq<PartView>>;

    closed spec fn view(&self) -> Map<Seq<char>, Seq<PartView>> {
        registry(self.templates@)
    }
}

impl Templates {
    /// The registry of the given named templates. Where a name occurs twice
    /// the later template replaces the earlier one.
    pub fn new(templates: Vec<(String, Template)>) -> (r: Templates)
        ensures
            r@ == registry(templates@),
    {
        Templates { templates }
    }

    /// The registry of the templates that the sources are, each under the
    /// name that comes with it. The first source that is not a template
    /// stops the loading, and the error names it.
    pub fn load(sources: &Vec<(String, String)>) -> (r: Result<Templates, TemplateLoadError>)
        ensures
            match r {
                Ok(templates) => first_failure(sources@, 0) == sources@.len() && templates@
                    == loaded(sources@, sources@.len() as int),
                Err(TemplateLoadError::Parse { name, error }) => {
                    let k = first_failure(sources@, 0);
                    0 <= k < sources@.len() && name@ == sources@[k].0@ && parsed(sources@[k].1@)
                        == Err::<Seq<PartView>, ParseError>(error)
                },
            },
    {
        let mut templates: Vec<(String, Template)> = Vec::new();
        let mut i: usize = 0;
        while i < sources.len()
            invariant
                i <= sources.len(),
                first_failure(sources@, 0) == first_failure(sources@, i as int),
                registry(templates@) == loaded(sources@, i as int),
            decreases sources.len() - i,
        {
            match Template::parse(sources[i].1.clone()) {
                Ok(template) => {
                    let ghost before = templates@;
                    let name = sources[i].0.clone();
                    templates.push((name, template));
                    proof {
                        assert(templates@.drop_last() =~= before);
                    }
                },
                Err(error) => {
                    return Err(TemplateLoadError::Parse { name: sources[i].0.clone(), error });
                },
            }
            i += 1;
        }
        Ok(Templates { templates })
    }

    /// The template registered under `name`, if there is one.
    pub fn get(&self, name: &str) -> (r: Option<&Template>)
        ensures
            match r {
                Some(t) => self@.contains_key(name@) && self@[name@] == t@,
                None => !self@.contains_key(name@),
            },
    {
        let wanted = name.to_owned();
        let mut i: usize = self.templates.len();
        assert(self.templates@.take(i as int) =~= self.templates@);
        while i > 0
            invariant
                i <= self.templates.len(),
                wanted@ == name@,
                registry(self.templates@).contains_key(name@) == registry(
                    self.templates@.take(i as int),
                ).contains_key(name@),
                registry(self.templates@).contains_key(name@) ==> registry(self.templates@)[name@]
                    == registry(self.templates@.take(i as int))[name@],
            decreases i,
        {
            proof {
                let here = self.templates@.take(i as int);
                assert(here.drop_last() =~= self.templates@.take(i - 1));
                assert(here.last() == self.templates@[i - 1]);
            }
            i -= 1;
            if self.templates[i].0 == wanted {
                return Some(&self.templates[i].1);
            }
        }
        proof {
            assert(self.templates@.take(0).len() == 0);
        }
        None
    }

    /// Renders the template called `name` with `data` as its outermost
    /// scope and appends what it writes to `out`. An unknown name is an
    /// error, and so is a value that has no text form where a variable asks
    /// for one; what was written before the error stays in `out`.
    pub fn render(&self, name: &str, out: &mut String, data: &Value) -> (r: Result<(), Error>)
        ensures
            final(out)@ == old(out)@ + template_outcome(self@, name@, data@).text,
            r == result_of(template_outcome(self@, name@, data@)),
    {
        let renderer = Renderer::new(self);
        renderer.render(name, data, out)
    }

    /// The text that the template called `name` renders against `data`.
    pub fn render_to_string(&self, name: &str, data: &Value) -> (r: Result<String, Error>)
        ensures
            match r {
                Ok(text) => template_outcome(self@, name@, data@).error is None && text@
                    == template_outcome(self@, name@, data@).text,
                Err(e) => template_outcome(self@, name@, data@).error == Some(e),
            },
    {
        let mut buf = String::new();
        let renderer = Renderer::new(self);
        match renderer.render(name, data, &mut buf) {
            Ok(_) => {
                assert(Seq::<char>::empty() + template_outcome(self@, name@, data@).text
                    =~= template_outcome(self@, name@, data@).text);
                Ok(buf)
            },
            Err(e) => Err(e),
        }
    }
}

} // verus!
