//! The output resolver: derives the destination path of each of the two
//! result streams from the configuration, and decides — given whether a
//! regular file already stands at that path — whether the stream may be
//! created, refusing to silently overwrite prior results unless `redo`
//! was given.
//!
//! This module performs no I/O itself: the caller checks for an existing
//! file and opens the returned path, and must not create or truncate
//! anything when resolution is refused.

use vstd::prelude::*;
use vstd::string::*;

use crate::args::Args;
use crate::decimal::{lemma_render_faithful, same_value, spec_render, Decimal};
use crate::text::{ext_dot, spec_with_extension, with_extension};

verus! {

/// The two independent result streams.
#[derive(PartialEq, Eq, Structural, Clone, Copy, Debug)]
pub enum OutputRole {
    Primary,
    Confidence,
}

/// The extension of a derived confidence path: it embeds the rendered
/// confidence threshold, so outputs produced under different thresholds
/// for the same query file do not collide.
pub open spec fn confidence_ext(d: Decimal) -> Seq<char> {
    "sintax.conf"@ + spec_render(d) + ".out"@
}

/// The resolved path names an existing file and `redo` was not given.
#[derive(Debug)]
pub struct OutputExistsError {
    pub path: String,
    pub role: OutputRole,
}

/// The diagnostic text of a refused resolution: names the path, the
/// explicit-path flag of the role, and the force flag.
pub open spec fn spec_exists_message(path: Seq<char>, role: OutputRole) -> Seq<char> {
    "Output file "@ + path + " already exists! Please specify another file with "@ + (if role
        == OutputRole::Primary {
        "-o"@
    } else {
        "-u"@
    }) + " <PATH> or run with --redo to force overriding existing files!"@
}

impl OutputExistsError {
    /// The human-readable diagnostic for this refusal.
    pub fn message(&self) -> (r: String)
        ensures
            r@ == spec_exists_message(self.path@, self.role),
    {
        let mut r = String::from_str("Output file ");
        r.append(self.path.as_str());
        r.append(" already exists! Please specify another file with ");
        match self.role {
            OutputRole::Primary => r.append("-o"),
            OutputRole::Confidence => r.append("-u"),
        }
        r.append(" <PATH> or run with --redo to force overriding existing files!");
        r
    }
}

impl Args {
    /// The primary output path: the explicit override, or the query file
    /// with its extension replaced by `sintax.out`.
    pub open spec fn spec_primary_path(self) -> Seq<char> {
        match self.output {
            Some(p) => p@,
            None => spec_with_extension(self.query_file@, "sintax.out"@),
        }
    }

    /// The confidence output path: the explicit override, or the query
    /// file with its extension replaced by the threshold-bearing marker.
    pub open spec fn spec_confidence_path(self) -> Seq<char> {
        match self.confidence_output {
            Some(p) => p@,
            None => spec_with_extension(self.query_file@, confidence_ext(self.min_confidence)),
        }
    }

    /// The resolved destination path of a role.
    pub open spec fn spec_path_for(self, role: OutputRole) -> Seq<char> {
        match role {
            OutputRole::Primary => self.spec_primary_path(),
            OutputRole::Confidence => self.spec_confidence_path(),
        }
    }

    /// Derives the primary output path.
    pub fn output_path(&self) -> (r: String)
        ensures
            r@ == self.spec_primary_path(),
    {
        match self.output.as_ref() {
            Some(p) => p.clone(),
            None => with_extension(self.query_file.as_str(), "sintax.out"),
        }
    }

    /// Derives the confidence output path.
    pub fn confidence_output_path(&self) -> (r: String)
        ensures
            r@ == self.spec_confidence_path(),
    {
        match self.confidence_output.as_ref() {
            Some(p) => p.clone(),
            None => {
                let mut e = String::from_str("sintax.conf");
                let t = self.min_confidence.render();
                e.append(t.as_str());
                e.append(".out");
                with_extension(self.query_file.as_str(), e.as_str())
            },
        }
    }

    /// Resolves the output stream of `role`, given whether a regular file
    /// already stands at its destination path.
    ///
    /// With an existing file and no `redo`, resolution is refused: the
    /// error names the path, and the caller must not create or truncate
    /// anything. Otherwise the caller may create (or, under `redo`,
    /// truncate) the file at the returned path.
    pub fn resolve_output(&self, role: OutputRole, exists: bool) -> (r: Result<
        String,
        OutputExistsError,
    >)
        ensures
            exists && !self.redo ==> (r matches Err(e) && e.path@ == self.spec_path_for(role)
                && e.role == role),
            !(exists && !self.redo) ==> (r matches Ok(p) && p@ == self.spec_path_for(role)),
    {
        let path = match role {
            OutputRole::Primary => self.output_path(),
            OutputRole::Confidence => self.confidence_output_path(),
        };
        if exists && !self.redo {
            Err(OutputExistsError { path, role })
        } else {
            Ok(path)
        }
    }
}

/// Replacing the extension of one path with two different texts yields
/// two different paths.
pub proof fn lemma_with_extension_ext_injective(p: Seq<char>, e1: Seq<char>, e2: Seq<char>)
    requires
        e1 != e2,
    ensures
        spec_with_extension(p, e1) != spec_with_extension(p, e2),
{
    reveal_strlit(".");
    let pre = if ext_dot(p) >= 0 {
        p.take(ext_dot(p))
    } else {
        p
    };
    let r1 = pre + "."@ + e1;
    let r2 = pre + "."@ + e2;
    assert(spec_with_extension(p, e1) == r1);
    assert(spec_with_extension(p, e2) == r2);
    if e1.len() == e2.len() {
        if r1 == r2 {
            assert forall|k: int| 0 <= k < e1.len() implies e1[k] == e2[k] by {
                assert(r1[pre.len() + 1 + k] == e1[k]);
                assert(r2[pre.len() + 1 + k] == e2[k]);
            }
            assert(e1 =~= e2);
        }
        assert(r1 != r2);
    } else {
        assert(r1.len() != r2.len());
    }
}

/// Two different middle segments between the same affixes yield two
/// different texts.
pub proof fn lemma_affix_injective(a: Seq<char>, b: Seq<char>, x: Seq<char>, y: Seq<char>)
    requires
        x != y,
    ensures
        a + x + b != a + y + b,
{
    let r1 = a + x + b;
    let r2 = a + y + b;
    if x.len() == y.len() {
        if r1 == r2 {
            assert forall|k: int| 0 <= k < x.len() implies x[k] == y[k] by {
                assert(r1[a.len() + k] == x[k]);
                assert(r2[a.len() + k] == y[k]);
            }
            assert(x =~= y);
        }
        assert(r1 != r2);
    } else {
        assert(r1.len() != r2.len());
    }
}

/// Derived confidence paths for the same query file never collide when
/// the rendered confidence thresholds differ: the threshold text is
/// embedded in the derived file name.
pub proof fn lemma_confidence_paths_distinct(a1: Args, a2: Args)
    requires
        a1.confidence_output is None,
        a2.confidence_output is None,
        a1.query_file@ == a2.query_file@,
        spec_render(a1.min_confidence) != spec_render(a2.min_confidence),
    ensures
        a1.spec_confidence_path() != a2.spec_confidence_path(),
{
    lemma_affix_injective(
        "sintax.conf"@,
        ".out"@,
        spec_render(a1.min_confidence),
        spec_render(a2.min_confidence),
    );
    lemma_with_extension_ext_injective(
        a1.query_file@,
        confidence_ext(a1.min_confidence),
        confidence_ext(a2.min_confidence),
    );
}

/// Confidence outputs produced under confidence thresholds that denote
/// different numbers never collide on the same query file: the rendered
/// threshold is a faithful key of the derived file name.
pub proof fn lemma_distinct_thresholds_distinct_paths(a1: Args, a2: Args)
    requires
        a1.confidence_output is None,
        a2.confidence_output is None,
        a1.query_file@ == a2.query_file@,
        a1.min_confidence.wf(),
        a2.min_confidence.wf(),
        a1.min_confidence.in_unit_closed(),
        a2.min_confidence.in_unit_closed(),
        !same_value(a1.min_confidence, a2.min_confidence),
    ensures
        a1.spec_confidence_path() != a2.spec_confidence_path(),
{
    lemma_render_faithful(a1.min_confidence, a2.min_confidence);
    lemma_confidence_paths_distinct(a1, a2);
}

} // verus!
