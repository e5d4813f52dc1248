//! Merging of configuration-file values with command-line values, and
//! validation of the merged record the conversion consumes.

use vstd::prelude::*;
use vstd::string::StringExecFns;

use crate::model::{
    AdHocGranularity, FileFilterConfig, OutputFormat, YcgConfigFile, granularity_of,
};
use crate::text;

verus! {

/// The merged, validated configuration record.
#[derive(Debug, Clone)]
pub struct MergedConfig {
    pub compact: bool,
    pub output_format: OutputFormat,
    pub ignore_framework_noise: bool,
    pub file_filter: FileFilterConfig,
    pub adhoc_granularity: AdHocGranularity,
}

/// The output format a configuration string names, compared
/// case-insensitively.
pub open spec fn format_of(s: Seq<char>) -> Option<OutputFormat> {
    let l = text::lower_ascii(s);
    if l == "yaml"@ {
        Some(OutputFormat::Yaml)
    } else if l == "adhoc"@ {
        Some(OutputFormat::AdHoc)
    } else {
        None
    }
}

/// The message reported for a format string that names no format.
pub open spec fn format_err_msg(s: Seq<char>) -> Seq<char> {
    "Invalid output format: '"@ + s + "'. Valid values are: 'yaml', 'adhoc'"@
}

/// The message reported when a granularity flag is given without the ad-hoc
/// output format.
pub open spec fn granularity_format_err_msg() -> Seq<char> {
    "Granularity flags require --output-format adhoc"@
}

fn parse_format(s: &str) -> (r: Result<OutputFormat, String>)
    ensures
        match r {
            Ok(f) => format_of(s@) == Some(f),
            Err(e) => format_of(s@) is None && e@ == format_err_msg(s@),
        },
{
    let chars = text::chars_of(s);
    let lowered = text::lower_ascii_exec(&chars);
    if text::chars_eq(&lowered, &text::chars_of("yaml")) {
        Ok(OutputFormat::Yaml)
    } else if text::chars_eq(&lowered, &text::chars_of("adhoc")) {
        Ok(OutputFormat::AdHoc)
    } else {
        let mut msg = String::from_str("Invalid output format: '");
        msg.append(s);
        msg.append("'. Valid values are: 'yaml', 'adhoc'");
        Err(msg)
    }
}

/// The patterns of `ps` as character sequences.
pub open spec fn patterns_view(ps: Seq<String>) -> Seq<Seq<char>> {
    ps.map_values(|p: String| p@)
}

/// The first include pattern that also stands in the exclude list.
pub open spec fn first_conflict(inc: Seq<Seq<char>>, exc: Seq<Seq<char>>) -> Option<Seq<char>>
    decreases inc.len(),
{
    if inc.len() == 0 {
        None
    } else if exc.contains(inc[0]) {
        Some(inc[0])
    } else {
        first_conflict(inc.drop_first(), exc)
    }
}

/// The message reported for a pattern present in both lists.
pub open spec fn conflict_err_msg(p: Seq<char>) -> Seq<char> {
    "Conflicting patterns in include and exclude lists: '"@ + p + "'"@
}

fn clone_strings(v: &Vec<String>) -> (r: Vec<String>)
    ensures
        r.deep_view() == v.deep_view(),
        r@.len() == v@.len(),
        forall|i: int| 0 <= i < v@.len() ==> (#[trigger] r@[i])@ == v@[i]@,
{
    let mut r: Vec<String> = Vec::new();
    let mut i: usize = 0;
    while i < v.len()
        invariant
            i <= v@.len(),
            r@.len() == i,
            forall|j: int| 0 <= j < i ==> (#[trigger] r@[j])@ == v@[j]@,
        decreases v.len() - i,
    {
        r.push(v[i].clone());
        i += 1;
    }
    proof {
        assert(r.deep_view() =~= v.deep_view());
    }
    r
}

/// Loader and merger of configuration values.
pub struct ConfigLoader;

impl ConfigLoader {
    /// Merge configuration-file values with command-line values; the
    /// command line wins wherever it says anything. Fails on an output
    /// format or granularity string that names nothing, and on a granularity
    /// flag without the ad-hoc output format.
    #[verifier::rlimit(30)]
    pub fn merge_with_cli(
        file_config: Option<YcgConfigFile>,
        cli_compact: Option<bool>,
        cli_format: Option<String>,
        cli_ignore_noise: Option<bool>,
        cli_include: Vec<String>,
        cli_exclude: Vec<String>,
        cli_no_gitignore: bool,
        cli_granularity: Option<AdHocGranularity>,
    ) -> (r: Result<MergedConfig, String>)
        ensures
            match r {
                Ok(m) => {
                    let fmt = merged_format_spec(file_config, cli_format);
                    let gran = merged_granularity_spec(file_config, cli_granularity);
                    &&& fmt is Some && m.output_format == fmt.unwrap()
                    &&& gran is Some && m.adhoc_granularity == gran.unwrap()
                    &&& !(cli_granularity is Some && fmt != Some(OutputFormat::AdHoc))
                    &&& m.compact == merged_flag_spec(
                        cli_compact,
                        match file_config {
                            Some(f) => f.output.compact,
                            None => None,
                        },
                    )
                    &&& m.ignore_framework_noise == merged_flag_spec(
                        cli_ignore_noise,
                        match file_config {
                            Some(f) => f.output.ignore_framework_noise,
                            None => None,
                        },
                    )
                    &&& patterns_view(m.file_filter.include_patterns@) == merged_patterns_spec(
                        patterns_view(cli_include@),
                        match file_config {
                            Some(f) => patterns_view(f.include_patterns@),
                            None => Seq::empty(),
                        },
                    )
                    &&& patterns_view(m.file_filter.exclude_patterns@) == merged_patterns_spec(
                        patterns_view(cli_exclude@),
                        match file_config {
                            Some(f) => match f.ignore.custom_patterns {
                                Some(ps) => patterns_view(ps@),
                                None => Seq::empty(),
                            },
                            None => Seq::empty(),
                        },
                    )
                    &&& m.file_filter.use_gitignore == (!cli_no_gitignore && (match file_config {
                        Some(f) => match f.ignore.use_gitignore {
                            Some(b) => b,
                            None => true,
                        },
                        None => true,
                    }))
                },
                Err(_) => {
                    ||| merged_format_spec(file_config, cli_format) is None
                    ||| merged_granularity_spec(file_config, cli_granularity) is None
                    ||| (cli_granularity is Some && merged_format_spec(file_config, cli_format)
                        != Some(OutputFormat::AdHoc))
                },
            },
    {
        let format = match &cli_format {
            Some(s) => {
                match parse_format(s.as_str()) {
                    Ok(f) => f,
                    Err(e) => {
                        return Err(e);
                    },
                }
            },
            None => {
                match &file_config {
                    Some(f) => match &f.output.format {
                        Some(s) => {
                            match parse_format(s.as_str()) {
                                Ok(fm) => fm,
                                Err(e) => {
                                    return Err(e);
                                },
                            }
                        },
                        None => OutputFormat::Yaml,
                    },
                    None => OutputFormat::Yaml,
                }
            },
        };
        let granularity = match cli_granularity {
            Some(g) => g,
            None => {
                match &file_config {
                    Some(f) => match &f.output.adhoc_granularity {
                        Some(s) => {
                            match AdHocGranularity::from_str(s.as_str()) {
                                Ok(g) => g,
                                Err(e) => {
                                    return Err(e);
                                },
                            }
                        },
                        None => AdHocGranularity::Default,
                    },
                    None => AdHocGranularity::Default,
                }
            },
        };
        if cli_granularity.is_some() && !(format == OutputFormat::AdHoc) {
            let msg = String::from_str("Granularity flags require --output-format adhoc");
            return Err(msg);
        }
        let compact = match cli_compact {
            Some(b) => b,
            None => match &file_config {
                Some(f) => match f.output.compact {
                    Some(b) => b,
                    None => false,
                },
                None => false,
            },
        };
        let ignore_noise = match cli_ignore_noise {
            Some(b) => b,
            None => match &file_config {
                Some(f) => match f.output.ignore_framework_noise {
                    Some(b) => b,
                    None => false,
                },
                None => false,
            },
        };
        let include_patterns = if cli_include.len() > 0 {
            cli_include
        } else {
            match &file_config {
                Some(f) => clone_strings(&f.include_patterns),
                None => Vec::new(),
            }
        };
        let exclude_patterns = if cli_exclude.len() > 0 {
            cli_exclude
        } else {
            match &file_config {
                Some(f) => match &f.ignore.custom_patterns {
                    Some(ps) => clone_strings(ps),
                    None => Vec::new(),
                },
                None => Vec::new(),
            }
        };
        let use_gitignore = if cli_no_gitignore {
            false
        } else {
            match &file_config {
                Some(f) => match f.ignore.use_gitignore {
                    Some(b) => b,
                    None => true,
                },
                None => true,
            }
        };
        proof {
            assert(patterns_view(include_patterns@) =~= merged_patterns_spec(
                patterns_view(cli_include@),
                match file_config {
                    Some(f) => patterns_view(f.include_patterns@),
                    None => Seq::empty(),
                },
            ));
            assert(patterns_view(exclude_patterns@) =~= merged_patterns_spec(
                patterns_view(cli_exclude@),
                match file_config {
                    Some(f) => match f.ignore.custom_patterns {
                        Some(ps) => patterns_view(ps@),
                        None => Seq::empty(),
                    },
                    None => Seq::empty(),
                },
            ));
        }
        Ok(
            MergedConfig {
                compact,
                output_format: format,
                ignore_framework_noise: ignore_noise,
                file_filter: FileFilterConfig {
                    include_patterns,
                    exclude_patterns,
                    use_gitignore,
                },
                adhoc_granularity: granularity,
            },
        )
    }

    /// Reject a configuration whose include and exclude lists share a
    /// pattern.
    pub fn validate(config: &MergedConfig) -> (r: Result<(), String>)
        ensures
            match r {
                Ok(_) => first_conflict(
                    patterns_view(config.file_filter.include_patterns@),
                    patterns_view(config.file_filter.exclude_patterns@),
                ) is None,
                Err(e) => {
                    let c = first_conflict(
                        patterns_view(config.file_filter.include_patterns@),
                        patterns_view(config.file_filter.exclude_patterns@),
                    );
                    c is Some && e@ == conflict_err_msg(c.unwrap())
                },
            },
    {
        let inc = &config.file_filter.include_patterns;
        let exc = &config.file_filter.exclude_patterns;
        let ghost incv = patterns_view(inc@);
        let ghost excv = patterns_view(exc@);
        let mut i: usize = 0;
        proof {
            assert(incv.subrange(0, incv.len() as int) =~= incv);
        }
        while i < inc.len()
            invariant
                incv == patterns_view(inc@),
                excv == patterns_view(exc@),
                incv == patterns_view(config.file_filter.include_patterns@),
                excv == patterns_view(config.file_filter.exclude_patterns@),
                incv.len() == inc@.len(),
                excv.len() == exc@.len(),
                i <= inc@.len(),
                first_conflict(incv, excv) == first_conflict(
                    incv.subrange(i as int, incv.len() as int),
                    excv,
                ),
            decreases inc.len() - i,
        {
            let ghost rest = incv.subrange(i as int, incv.len() as int);
            proof {
                assert(rest[0] == incv[i as int]);
                assert(rest.drop_first() =~= incv.subrange(i + 1, incv.len() as int));
            }
            let mut j: usize = 0;
            let mut found = false;
            while j < exc.len()
                invariant
                    excv == patterns_view(exc@),
                    excv.len() == exc@.len(),
                    j <= exc@.len(),
                    i < inc@.len(),
                    incv == patterns_view(inc@),
                    incv.len() == inc@.len(),
                    found ==> excv.contains(incv[i as int]),
                    !found ==> forall|t: int| 0 <= t < j ==> excv[t] != incv[i as int],
                decreases exc.len() - j,
            {
                if !found && exc[j].eq(&inc[i]) {
                    found = true;
                    proof {
                        assert(excv[j as int] == incv[i as int]);
                    }
                }
                j += 1;
            }
            if found {
                let mut msg = String::from_str(
                    "Conflicting patterns in include and exclude lists: '",
                );
                msg.append(inc[i].as_str());
                msg.append("'");
                proof {
                    assert(first_conflict(rest, excv) == Some(incv[i as int]));
                    assert(first_conflict(incv, excv) == Some(incv[i as int]));
                    assert(incv[i as int] == inc@[i as int]@);
                    assert(msg@ =~= conflict_err_msg(incv[i as int]));
                }
                return Err(msg);
            }
            proof {
                assert(!excv.contains(incv[i as int]));
                assert(first_conflict(rest, excv) == first_conflict(rest.drop_first(), excv));
            }
            i += 1;
        }
        proof {
            assert(incv.subrange(i as int, incv.len() as int) =~= Seq::<Seq<char>>::empty());
        }
        Ok(())
    }
}

/// A command-line flag wins over a file value; both absent means `false`.
pub open spec fn merged_flag_spec(cli: Option<bool>, file: Option<bool>) -> bool {
    match cli {
        Some(b) => b,
        None => match file {
            Some(b) => b,
            None => false,
        },
    }
}

/// A non-empty command-line pattern list wins over the file's list.
pub open spec fn merged_patterns_spec(cli: Seq<Seq<char>>, file: Seq<Seq<char>>) -> Seq<Seq<char>> {
    if cli.len() > 0 {
        cli
    } else {
        file
    }
}

/// The output format the merged configuration uses, or `None` when a given
/// format string names nothing.
pub open spec fn merged_format_spec(
    file_config: Option<YcgConfigFile>,
    cli_format: Option<String>,
) -> Option<OutputFormat> {
    match cli_format {
        Some(s) => format_of(s@),
        None => match file_config {
            Some(f) => match f.output.format {
                Some(s) => format_of(s@),
                None => Some(OutputFormat::Yaml),
            },
            None => Some(OutputFormat::Yaml),
        },
    }
}

/// The granularity the merged configuration uses, or `None` when a given
/// granularity string names nothing.
pub open spec fn merged_granularity_spec(
    file_config: Option<YcgConfigFile>,
    cli_granularity: Option<AdHocGranularity>,
) -> Option<AdHocGranularity> {
    match cli_granularity {
        Some(g) => Some(g),
        None => match file_config {
            Some(f) => match f.output.adhoc_granularity {
                Some(s) => granularity_of(s@),
                None => Some(AdHocGranularity::Default),
            },
            None => Some(AdHocGranularity::Default),
        },
    }
}

} // verus!
