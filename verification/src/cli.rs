//! The arguments of the command line, and the configuration they make.

use crate::config::{
    items_from, level_named, lowercase, output_among_inputs, page_number, parse_page_number,
    trimmed_field, field_text, text_eq, CompressionLevel, Config, Metadata, OverwriteMode,
    PageRange, Rotation,
};
use crate::error::PdfCatError;
use crate::config::{find_sep, next_sep};
use crate::paths::{path_from_text, path_text};
use crate::text::{chars_of, concat, slice_chars, string_of, trim_chars, trimmed};
use std::path::PathBuf;
use vstd::prelude::*;
use vstd::string::*;

verus! {

/// The arguments of the command line.
#[derive(Debug)]
pub struct Cli {
    /// Input files, in merge order.
    pub inputs: Vec<PathBuf>,
    /// Output file.
    pub output: PathBuf,
    /// Validate and preview only.
    pub dry_run: bool,
    /// Show details.
    pub verbose: bool,
    /// Overwrite the output without asking.
    pub force: bool,
    /// Never overwrite the output.
    pub no_clobber: bool,
    /// Show errors and warnings only.
    pub quiet: bool,
    /// Add a bookmark for each input.
    pub bookmarks: bool,
    /// Compression level: none, standard or maximum.
    pub compression: String,
    /// Title of the output.
    pub title: Option<String>,
    /// Author of the output.
    pub author: Option<String>,
    /// Subject of the output.
    pub subject: Option<String>,
    /// Keywords of the output.
    pub keywords: Option<String>,
    /// Go on where an input fails to load.
    pub continue_on_error: bool,
    /// File that lists further inputs.
    pub input_list: Option<PathBuf>,
    /// Number of parallel jobs.
    pub jobs: Option<usize>,
    /// Page range to take from each input.
    pub pages: Option<String>,
    /// Rotation in degrees: 90, 180 or 270.
    pub rotate: Option<String>,
}

/// The rotation that a text of degrees writes.
pub open spec fn rotation_written(text: Seq<char>) -> Option<Rotation> {
    match page_number(text) {
        Some(n) => if n <= u16::MAX {
            Rotation::of_degrees(n as u16)
        } else {
            None
        },
        None => None,
    }
}

/// The overwrite mode that the flags ask for.
pub open spec fn overwrite_of(force: bool, no_clobber: bool) -> OverwriteMode {
    if force {
        OverwriteMode::Force
    } else if no_clobber {
        OverwriteMode::NoClobber
    } else {
        OverwriteMode::Prompt
    }
}

/// The lines of a list of inputs from position `from` on that name a path:
/// each line without the whitespace around it, the empty lines and the
/// lines that start with `#` left out.
pub open spec fn listed_lines(s: Seq<char>, from: int) -> Seq<Seq<char>>
    decreases s.len() - from,
{
    let end = next_sep(s, from, '\n');
    if from > s.len() || from < 0 || end < from || end > s.len() {
        Seq::empty()
    } else {
        let line = trimmed(s.subrange(from, end));
        let rest = if end >= s.len() {
            Seq::empty()
        } else {
            listed_lines(s, end + 1)
        };
        if line.len() == 0 || line[0] == '#' {
            rest
        } else {
            seq![line] + rest
        }
    }
}

/// The paths that a list of inputs names, one path per line. Empty lines
/// and lines that start with `#` are skipped, and whitespace around a path
/// is ignored.
pub fn input_list_paths(text: &str) -> (paths: Vec<PathBuf>)
    ensures
        paths@.len() == listed_lines(text@, 0).len(),
        forall|i: int|
            0 <= i < paths@.len() ==> path_text(#[trigger] paths@[i]) == listed_lines(text@, 0)[i],
{
    let chars = chars_of(text);
    let mut paths: Vec<PathBuf> = Vec::new();
    let ghost mut found: Seq<Seq<char>> = Seq::empty();
    let mut pos: usize = 0;
    loop
        invariant
            chars@ == text@,
            pos <= chars@.len(),
            paths@.len() == found.len(),
            forall|i: int| 0 <= i < paths@.len() ==> path_text(#[trigger] paths@[i]) == found[i],
            listed_lines(text@, 0) == found + listed_lines(text@, pos as int),
        decreases chars@.len() - pos,
    {
        let end = find_sep(&chars, pos, '\n');
        let line = trim_chars(&slice_chars(&chars, pos, end));
        let ghost before = found;
        if line.len() > 0 && line[0] != '#' {
            let shown = string_of(&line);
            paths.push(path_from_text(shown.as_str()));
            proof {
                found = found.push(line@);
            }
        }
        if end >= chars.len() {
            proof {
                assert(listed_lines(text@, pos as int) =~= found.subrange(
                    before.len() as int,
                    found.len() as int,
                ));
                assert(found =~= before + listed_lines(text@, pos as int));
            }
            return paths;
        }
        proof {
            assert(before + listed_lines(text@, pos as int) =~= found + listed_lines(
                text@,
                end + 1,
            ));
        }
        pos = end + 1;
    }
}

/// A copy of the paths.
pub fn clone_paths(paths: &Vec<PathBuf>) -> (r: Vec<PathBuf>)
    ensures
        r@ == paths@,
{
    let mut r: Vec<PathBuf> = Vec::new();
    let mut i: usize = 0;
    while i < paths.len()
        invariant
            i <= paths.len(),
            r@ == paths@.subrange(0, i as int),
        decreases paths.len() - i,
    {
        r.push(paths[i].clone());
        i += 1;
        assert(r@ =~= paths@.subrange(0, i as int));
    }
    assert(r@ =~= paths@);
    r
}

/// A copy of an optional text.
pub fn clone_text(text: &Option<String>) -> (r: Option<String>)
    ensures
        field_text(r) == field_text(*text),
{
    match text {
        Some(t) => Some(t.clone()),
        None => None,
    }
}

impl Cli {
    /// Whether the arguments make no configuration: a level, a rotation or
    /// a page range that cannot be read, no inputs, both verbose and quiet,
    /// no jobs, or an output that is one of the inputs.
    pub open spec fn faulty(&self) -> bool {
        ||| level_named(lowercase(self.compression@)) is None
        ||| (self.rotate matches Some(text) && rotation_written(text@) is None)
        ||| (self.pages matches Some(text) && items_from(text@, 0) is None)
        ||| self.inputs@.len() == 0
        ||| (self.verbose && self.quiet)
        ||| self.jobs == Some(0usize)
        ||| output_among_inputs(self.inputs@, self.output)
    }

    /// The configuration that the arguments make.
    ///
    /// Fails with `InvalidConfig` where the compression level, the rotation
    /// or the page range cannot be read, or the configuration breaks a
    /// rule.
    pub fn to_config(&self) -> (r: Result<Config, PdfCatError>)
        ensures
            match r {
                Ok(config) => {
                    &&& !self.faulty()
                    &&& config.inputs@ == self.inputs@
                    &&& config.output == self.output
                    &&& config.dry_run == self.dry_run
                    &&& config.verbose == self.verbose
                    &&& config.quiet == self.quiet
                    &&& config.bookmarks == self.bookmarks
                    &&& config.continue_on_error == self.continue_on_error
                    &&& config.jobs == self.jobs
                    &&& config.overwrite_mode == overwrite_of(self.force, self.no_clobber)
                    &&& Some(config.compression) == level_named(lowercase(self.compression@))
                    &&& config.rotation == match self.rotate {
                        Some(text) => rotation_written(text@),
                        None => None,
                    }
                    &&& match self.pages {
                        Some(text) => config.page_range matches Some(range) && items_from(
                            text@,
                            0,
                        ) == Some(range@),
                        None => config.page_range is None,
                    }
                    &&& field_text(config.metadata.title) == trimmed_field(self.title)
                    &&& field_text(config.metadata.author) == trimmed_field(self.author)
                    &&& field_text(config.metadata.subject) == trimmed_field(self.subject)
                    &&& field_text(config.metadata.keywords) == trimmed_field(self.keywords)
                },
                Err(e) => {
                    &&& self.faulty()
                    &&& e matches PdfCatError::InvalidConfig { .. }
                },
            },
    {
        let compression = match CompressionLevel::from_str(self.compression.as_str()) {
            Ok(level) => level,
            Err(e) => {
                let text = e.to_string();
                return Err(PdfCatError::invalid_config(text.as_str()));
            },
        };
        let rotation = match &self.rotate {
            Some(text) => {
                let degrees = match parse_page_number(&chars_of(text.as_str())) {
                    Some(n) => n,
                    None => {
                        return Err(PdfCatError::invalid_config("Invalid rotation degrees"));
                    },
                };
                if degrees > 0xFFFF {
                    return Err(PdfCatError::invalid_config("Invalid rotation degrees"));
                }
                match Rotation::from_degrees(degrees as u16) {
                    Ok(r) => Some(r),
                    Err(e) => {
                        let text = e.to_string();
                        return Err(PdfCatError::invalid_config(text.as_str()));
                    },
                }
            },
            None => None,
        };
        let overwrite_mode = if self.force {
            OverwriteMode::Force
        } else if self.no_clobber {
            OverwriteMode::NoClobber
        } else {
            OverwriteMode::Prompt
        };
        let page_range = match &self.pages {
            Some(text) => match PageRange::parse(text.as_str()) {
                Ok(range) => Some(range),
                Err(e) => {
                    let text = e.to_string();
                    return Err(PdfCatError::invalid_config(text.as_str()));
                },
            },
            None => None,
        };
        let metadata = Metadata::new(
            clone_text(&self.title),
            clone_text(&self.author),
            clone_text(&self.subject),
            clone_text(&self.keywords),
        );
        let config = Config {
            inputs: clone_paths(&self.inputs),
            output: self.output.clone(),
            dry_run: self.dry_run,
            verbose: self.verbose,
            overwrite_mode,
            quiet: self.quiet,
            bookmarks: self.bookmarks,
            compression,
            metadata,
            continue_on_error: self.continue_on_error,
            jobs: self.jobs,
            page_range,
            rotation,
        };
        match config.validate() {
            Ok(()) => Ok(config),
            Err(e) => {
                let text = e.to_string();
                let message = concat("Configuration validation failed: ", text.as_str());
                Err(PdfCatError::InvalidConfig { message })
            },
        }
    }

    /// The direct inputs followed by the inputs of the list.
    ///
    /// Fails with `NoFilesToMerge` where there is no input at all.
    pub fn all_inputs(&self, listed: Vec<PathBuf>) -> (r: Result<Vec<PathBuf>, PdfCatError>)
        ensures
            match r {
                Ok(all) => all@ == self.inputs@ + listed@ && all@.len() > 0,
                Err(e) => e is NoFilesToMerge && self.inputs@.len() == 0 && listed@.len() == 0,
            },
    {
        let mut all = clone_paths(&self.inputs);
        let mut listed = listed;
        all.append(&mut listed);
        if all.len() == 0 {
            return Err(PdfCatError::NoFilesToMerge);
        }
        Ok(all)
    }

    /// Whether the arguments break a rule that needs no file: no inputs, no
    /// jobs, a compression level other than `none`, `standard` and
    /// `maximum`, a rotation other than `90`, `180` and `270`, or a page
    /// range that cannot be read.
    pub open spec fn invalid(&self) -> bool {
        ||| self.inputs@.len() == 0
        ||| self.jobs == Some(0usize)
        ||| !(self.compression@ == "none"@ || self.compression@ == "standard"@
            || self.compression@ == "maximum"@)
        ||| (self.rotate matches Some(text) && !(text@ == "90"@ || text@ == "180"@ || text@
            == "270"@))
        ||| (self.pages matches Some(text) && items_from(text@, 0) is None)
    }

    /// Checks the arguments as far as no file is needed.
    pub fn validate(&self) -> (r: Result<(), PdfCatError>)
        ensures
            match r {
                Ok(()) => !self.invalid(),
                Err(e) => self.invalid() && e matches PdfCatError::InvalidConfig { .. },
            },
    {
        if self.inputs.len() == 0 {
            return Err(PdfCatError::invalid_config("No input files specified"));
        }
        match self.jobs {
            Some(jobs) => {
                if jobs == 0 {
                    return Err(PdfCatError::invalid_config("Number of jobs must be at least 1"));
                }
            },
            None => {},
        }
        let level = self.compression.as_str();
        if !(text_eq(level, "none") || text_eq(level, "standard") || text_eq(level, "maximum")) {
            let message = concat("Invalid compression level: ", level);
            return Err(PdfCatError::InvalidConfig { message });
        }
        match &self.rotate {
            Some(text) => {
                let rotate = text.as_str();
                if !(text_eq(rotate, "90") || text_eq(rotate, "180") || text_eq(rotate, "270")) {
                    let mut message = concat("Invalid rotation: ", rotate);
                    message.append(". Must be 90, 180, or 270");
                    return Err(PdfCatError::InvalidConfig { message });
                }
            },
            None => {},
        }
        match &self.pages {
            Some(text) => match PageRange::parse(text.as_str()) {
                Ok(_) => {},
                Err(e) => {
                    let text = e.to_string();
                    return Err(PdfCatError::invalid_config(text.as_str()));
                },
            },
            None => {},
        }
        Ok(())
    }
}

} // verus!
