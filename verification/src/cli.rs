//! The command-line surface: the three options and their validation.
//!
//! Reading the file system is the caller's business; validation itself
//! is a pure decision over what the caller found.

use vstd::prelude::*;
use vstd::string::StringExecFns;
use crate::errors::Error;

verus! {

/// The configuration the program runs under.
#[derive(Debug, Clone, PartialEq, Eq)]
pub struct Cli {
    /// List candidates and compute what would be restored; write nothing.
    pub dry_run: bool,
    /// Where reconstructed files are written.
    pub output_dir: String,
    /// The image file, block device, or mounted directory to restore from.
    pub image: String,
}

/// The text a flag displays as.
pub open spec fn spec_bool_text(b: bool) -> Seq<char> {
    if b {
        "true"@
    } else {
        "false"@
    }
}

impl Cli {
    /// A one-line-per-option summary of the configuration.
    pub fn display(&self) -> (r: String)
        ensures
            r@ == "dry-run: "@ + spec_bool_text(self.dry_run) + "\noutput-dir: "@
                + self.output_dir@ + "\nimage: "@ + self.image@,
    {
        let mut s: String = "dry-run: ".to_owned();
        if self.dry_run {
            s.append("true");
        } else {
            s.append("false");
        }
        s.append("\noutput-dir: ");
        s.append(self.output_dir.as_str());
        s.append("\nimage: ");
        s.append(self.image.as_str());
        s
    }

    /// Validates the configuration against what the caller found on the
    /// file system: the image must exist, and so must the output
    /// directory unless this is a dry run.
    pub fn parse_and_validate(self, image_exists: bool, output_dir_exists: bool) -> (r: Result<
        Cli,
        Error,
    >)
        ensures
            match r {
                Ok(c) => {
                    &&& image_exists
                    &&& (output_dir_exists || self.dry_run)
                    &&& c == self
                },
                Err(Error::InputValidation(m)) => {
                    ||| (!image_exists && m@ == "Specified image is Non-existant!"@)
                    ||| (image_exists && !output_dir_exists && !self.dry_run && m@
                        == "Specified output directory is Non-existant!"@)
                },
                Err(_) => false,
            },
    {
        if !image_exists {
            return Err(Error::InputValidation("Specified image is Non-existant!".to_owned()));
        }
        if !output_dir_exists && !self.dry_run {
            return Err(
                Error::InputValidation("Specified output directory is Non-existant!".to_owned()),
            );
        }
        Ok(self)
    }
}

/// Refuses an empty selection outside a dry run, before anything is
/// written.
pub fn validate_selection(n_selected: usize, dry_run: bool) -> (r: Result<(), Error>)
    ensures
        match r {
            Ok(_) => dry_run || n_selected > 0,
            Err(Error::InputValidation(m)) => {
                &&& !dry_run
                &&& n_selected == 0
                &&& m@ == "No files selected"@
            },
            Err(_) => false,
        },
{
    if !dry_run && n_selected == 0 {
        return Err(Error::InputValidation("No files selected".to_owned()));
    }
    Ok(())
}

} // verus!
