//! File filter: include/exclude glob patterns and gitignore rules decide
//! which documents enter the pipeline.

use vstd::prelude::*;
use vstd::string::StringExecFns;

use crate::builder::ScipDocument;
use crate::model::FileFilterConfig;

verus! {

/// Whether a glob pattern text compiles. Named, not defined: acceptance is a
/// pure function of the pattern text.
pub uninterp spec fn glob_ok(pattern: Seq<char>) -> bool;

/// Whether a glob pattern matches a path. Named, not defined: matching is a
/// pure function of the pattern text and the path.
pub uninterp spec fn glob_match(pattern: Seq<char>, path: Seq<char>) -> bool;

/// Whether a set of ignore lines ignores a path. Named, not defined: the
/// verdict is a pure function of the lines and the path.
pub uninterp spec fn gitignore_ignores(lines: Seq<Seq<char>>, path: Seq<char>) -> bool;

/// Relies on `glob::Pattern::new`: whether a pattern text compiles depends
/// on the text alone, and the call never panics.
#[verifier::external_body]
fn glob_pattern_ok(pattern: &str) -> (r: bool)
    ensures
        r == glob_ok(pattern@),
{
    glob::Pattern::new(pattern).is_ok()
}

/// Relies on `glob::Pattern::new` and `glob::Pattern::matches`: compiling a
/// pattern and matching a path is a pure function of the two texts.
#[verifier::external_body]
fn glob_match_exec(pattern: &str, path: &str) -> (r: bool)
    requires
        glob_ok(pattern@),
    ensures
        r == glob_match(pattern@, path@),
{
    match glob::Pattern::new(pattern) {
        Ok(p) => p.matches(path),
        Err(_) => false,
    }
}

/// Relies on `ignore::gitignore::GitignoreBuilder` (`add_line`, `build`) and
/// `ignore::gitignore::Gitignore::matched`: the verdict is a pure function
/// of the ignore lines and the path, and a build failure ignores nothing.
#[verifier::external_body]
fn gitignore_match_exec(lines: &Vec<String>, path: &str) -> (r: bool)
    ensures
        r == gitignore_ignores(lines.deep_view(), path@),
{
    let mut builder = ignore::gitignore::GitignoreBuilder::new("");
    for line in lines {
        let _ = builder.add_line(None, line);
    }
    match builder.build() {
        Ok(gi) => gi.matched(path, false).is_ignore(),
        Err(_) => false,
    }
}

/// The first pattern of the list that does not compile.
pub open spec fn first_invalid(patterns: Seq<Seq<char>>) -> Option<Seq<char>>
    decreases patterns.len(),
{
    if patterns.len() == 0 {
        None
    } else if !glob_ok(patterns[0]) {
        Some(patterns[0])
    } else {
        first_invalid(patterns.drop_first())
    }
}

/// Whether the filter lets a path through: include patterns, if any, must
/// match first; then exclude patterns reject; then ignore rules reject.
pub open spec fn should_process_spec(
    inc: Seq<Seq<char>>,
    exc: Seq<Seq<char>>,
    git: Option<Seq<Seq<char>>>,
    path: Seq<char>,
) -> bool {
    &&& (inc.len() == 0 || exists|i: int| 0 <= i < inc.len() && glob_match(#[trigger] inc[i], path))
    &&& !(exists|i: int| 0 <= i < exc.len() && glob_match(#[trigger] exc[i], path))
    &&& match git {
        Some(lines) => !gitignore_ignores(lines, path),
        None => true,
    }
}

/// The file filter: compiled include and exclude patterns, and the ignore
/// lines when gitignore filtering is on.
pub struct FileFilter {
    include_patterns: Vec<String>,
    exclude_patterns: Vec<String>,
    gitignore_lines: Option<Vec<String>>,
}

impl FileFilter {
    /// The include pattern texts.
    pub closed spec fn inc(&self) -> Seq<Seq<char>> {
        self.include_patterns.deep_view()
    }

    /// The exclude pattern texts.
    pub closed spec fn exc(&self) -> Seq<Seq<char>> {
        self.exclude_patterns.deep_view()
    }

    /// The ignore lines, when gitignore filtering is on.
    pub closed spec fn git(&self) -> Option<Seq<Seq<char>>> {
        match self.gitignore_lines {
            Some(ref l) => Some(l.deep_view()),
            None => None,
        }
    }

    /// Every held pattern compiles.
    pub open spec fn wf(&self) -> bool {
        &&& forall|i: int| 0 <= i < self.inc().len() ==> glob_ok(#[trigger] self.inc()[i])
        &&& forall|i: int| 0 <= i < self.exc().len() ==> glob_ok(#[trigger] self.exc()[i])
    }

    /// Build a filter from the configuration; the ignore lines are the
    /// `.gitignore` contents the caller read, used only when the
    /// configuration asks for gitignore filtering. Fails on the first
    /// pattern that does not compile.
    pub fn new(config: &FileFilterConfig, gitignore_lines: Option<Vec<String>>) -> (r: Result<
        FileFilter,
        String,
    >)
        ensures
            match r {
                Ok(f) => {
                    &&& f.wf()
                    &&& f.inc() == config.include_patterns.deep_view()
                    &&& f.exc() == config.exclude_patterns.deep_view()
                    &&& first_invalid(config.include_patterns.deep_view()) is None
                    &&& first_invalid(config.exclude_patterns.deep_view()) is None
                    &&& (config.use_gitignore ==> f.git() matches Some(_))
                    &&& (!config.use_gitignore ==> f.git() is None)
                },
                Err(_) => {
                    ||| first_invalid(config.include_patterns.deep_view()) is Some
                    ||| first_invalid(config.exclude_patterns.deep_view()) is Some
                },
            },
    {
        match Self::check_patterns(&config.include_patterns, "Invalid include pattern: ") {
            Ok(inc) => {
                match Self::check_patterns(&config.exclude_patterns, "Invalid exclude pattern: ") {
                    Ok(exc) => {
                        let lines: Option<Vec<String>> = if config.use_gitignore {
                            match gitignore_lines {
                                Some(l) => Some(l),
                                None => Some(Vec::new()),
                            }
                        } else {
                            None
                        };
                        Ok(
                            FileFilter {
                                include_patterns: inc,
                                exclude_patterns: exc,
                                gitignore_lines: lines,
                            },
                        )
                    },
                    Err(e) => Err(e),
                }
            },
            Err(e) => Err(e),
        }
    }

    /// Compile-check every pattern, copying the list.
    fn check_patterns(patterns: &Vec<String>, label: &str) -> (r: Result<Vec<String>, String>)
        ensures
            match r {
                Ok(copy) => copy.deep_view() == patterns.deep_view() && first_invalid(
                    patterns.deep_view(),
                ) is None && forall|i: int|
                    0 <= i < patterns.deep_view().len() ==> glob_ok(
                        #[trigger] patterns.deep_view()[i],
                    ),
                Err(_) => first_invalid(patterns.deep_view()) is Some,
            },
    {
        let ghost pv = patterns.deep_view();
        let mut copy: Vec<String> = Vec::new();
        let mut i: usize = 0;
        proof {
            assert(pv.subrange(0, 0) =~= Seq::<Seq<char>>::empty());
            assert(pv.subrange(0, pv.len() as int) =~= pv);
        }
        while i < patterns.len()
            invariant
                pv == patterns.deep_view(),
                patterns@.len() == pv.len(),
                i <= pv.len(),
                copy.deep_view() == pv.subrange(0, i as int),
                forall|j: int| 0 <= j < i ==> glob_ok(#[trigger] pv[j]),
                first_invalid(pv) == first_invalid(pv.subrange(i as int, pv.len() as int)),
            decreases patterns.len() - i,
        {
            let ghost rest = pv.subrange(i as int, pv.len() as int);
            proof {
                assert(rest[0] == pv[i as int]);
                assert(rest.drop_first() =~= pv.subrange(i + 1, pv.len() as int));
                assert(patterns@[i as int]@ == pv[i as int]);
            }
            if !glob_pattern_ok(patterns[i].as_str()) {
                let mut msg = String::from_str(label);
                msg.append(patterns[i].as_str());
                proof {
                    assert(first_invalid(rest) == Some(pv[i as int]));
                }
                return Err(msg);
            }
            let ghost before = copy.deep_view();
            copy.push(patterns[i].clone());
            proof {
                assert(copy.deep_view() =~= before.push(pv[i as int]));
                assert(copy.deep_view() =~= pv.subrange(0, i + 1));
            }
            i += 1;
        }
        proof {
            assert(pv.subrange(0, pv.len() as int) =~= pv);
            assert(pv.subrange(pv.len() as int, pv.len() as int) =~= Seq::<Seq<char>>::empty());
        }
        Ok(copy)
    }

    /// Whether a file should be processed under this filter's rules.
    pub fn should_process(&self, file_path: &str) -> (r: bool)
        requires
            self.wf(),
        ensures
            r == should_process_spec(self.inc(), self.exc(), self.git(), file_path@),
    {
        if self.include_patterns.len() > 0 {
            let mut matched = false;
            let mut i: usize = 0;
            while i < self.include_patterns.len() && !matched
                invariant
                    self.wf(),
                    i <= self.inc().len(),
                    self.include_patterns@.len() == self.inc().len(),
                    matched ==> exists|k: int|
                        0 <= k < self.inc().len() && glob_match(
                            #[trigger] self.inc()[k],
                            file_path@,
                        ),
                    !matched ==> forall|k: int|
                        0 <= k < i ==> !glob_match(#[trigger] self.inc()[k], file_path@),
                decreases self.include_patterns.len() - i,
            {
                proof {
                    assert(self.include_patterns@[i as int]@ == self.inc()[i as int]);
                }
                if glob_match_exec(self.include_patterns[i].as_str(), file_path) {
                    matched = true;
                }
                i += 1;
            }
            if !matched {
                return false;
            }
        }
        let mut j: usize = 0;
        while j < self.exclude_patterns.len()
            invariant
                self.wf(),
                j <= self.exc().len(),
                self.exclude_patterns@.len() == self.exc().len(),
                forall|k: int| 0 <= k < j ==> !glob_match(#[trigger] self.exc()[k], file_path@),
            decreases self.exclude_patterns.len() - j,
        {
            proof {
                assert(self.exclude_patterns@[j as int]@ == self.exc()[j as int]);
            }
            if glob_match_exec(self.exclude_patterns[j].as_str(), file_path) {
                return false;
            }
            j += 1;
        }
        match &self.gitignore_lines {
            Some(lines) => {
                if gitignore_match_exec(lines, file_path) {
                    return false;
                }
            },
            None => {},
        }
        true
    }

    /// Keep only the documents whose relative path passes the filter.
    pub fn filter_documents(&self, documents: Vec<ScipDocument>) -> (r: Vec<ScipDocument>)
        requires
            self.wf(),
        ensures
            r@ == documents@.filter(
                |doc: ScipDocument|
                    should_process_spec(self.inc(), self.exc(), self.git(), doc.relative_path@),
            ),
    {
        let ghost dv = documents@;
        let ghost pred = |doc: ScipDocument|
            should_process_spec(self.inc(), self.exc(), self.git(), doc.relative_path@);
        let total = documents.len();
        let mut rest = documents;
        let mut out: Vec<ScipDocument> = Vec::new();
        let mut i: usize = 0;
        proof {
            assert(out@ =~= dv.subrange(0, 0).filter(pred));
        }
        while rest.len() > 0
            invariant
                pred == (|doc: ScipDocument|
                    should_process_spec(self.inc(), self.exc(), self.git(), doc.relative_path@)),
                self.wf(),
                total == dv.len(),
                i <= total,
                rest@ == dv.subrange(i as int, dv.len() as int),
                out@ == dv.subrange(0, i as int).filter(pred),
            decreases rest.len(),
        {
            proof {
                reveal(Seq::filter);
                assert(rest@[0] == dv[i as int]);
                assert(rest@.remove(0) =~= dv.subrange(i + 1, dv.len() as int));
                assert(dv.subrange(0, i + 1).drop_last() =~= dv.subrange(0, i as int));
                assert(dv.subrange(0, i + 1).last() == dv[i as int]);
            }
            let doc = rest.remove(0);
            let keep = self.should_process(doc.relative_path.as_str());
            if keep {
                out.push(doc);
            }
            proof {
                assert(out@ =~= dv.subrange(0, i + 1).filter(pred));
            }
            i += 1;
        }
        proof {
            assert(i as int == dv.len());
            assert(dv.subrange(0, dv.len() as int) =~= dv);
        }
        out
    }
}

} // verus!
