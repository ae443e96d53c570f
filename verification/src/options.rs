//! The command line: which option means what, and what the options add up to.
//!
//! The arguments are read elsewhere. This module decides, for one argument at a
//! time, what it asks for, keeps the settings made so far, and in the end turns
//! them into a configuration.

use crate::colormap::ColorStop;
use crate::registry::{get_color_map, scheme_or_default, scheme_stops};
use crate::view::{config_view, Config, ConfigError, ConfigView};
use vstd::prelude::*;

verus! {

/// One argument of the command line.
#[derive(Debug)]
pub enum CliArg {
    /// A short option, as `-q`; the dash is not part of it.
    Short(char),
    /// A long option, as `--verbose`; the dashes are not part of it.
    Long(String),
    /// A positional argument.
    Value(String),
}

/// The bits of the binary64 number 1, the height of the view where none is
/// given.
pub const DEFAULT_FOVY: u64 = 0x3ff0_0000_0000_0000;

/// An option whose value is a number of the plane.
#[derive(Clone, Copy, Debug, PartialEq, Eq, Structural)]
pub enum NumberOption {
    Fovy,
    CenterReal,
    CenterImag,
}

/// An option whose value is a count.
#[derive(Clone, Copy, Debug, PartialEq, Eq, Structural)]
pub enum CountOption {
    Width,
    Height,
    Supersample,
}

/// What an argument asks for.
#[derive(Clone, Copy, Debug, PartialEq, Eq, Structural)]
pub enum Directive {
    /// The next value is the number for this option.
    Number(NumberOption),
    /// The next value is the count for this option.
    Count(CountOption),
    /// The next value is the name of the colour scheme.
    Color,
    /// The argument itself is the path of the output file.
    Outfile,
    /// Print the usage and stop.
    Help,
    /// The argument is not expected here.
    Unexpected,
}

/// The argument is the option with the short name `short` or the long name
/// `long`.
pub open spec fn names_option(arg: CliArg, short: char, long: Seq<char>) -> bool {
    match arg {
        CliArg::Short(c) => c == short,
        CliArg::Long(s) => s@ == long,
        CliArg::Value(_) => false,
    }
}

/// What `arg` asks for, given whether a colour scheme and an output file have
/// been named already: each of the two can be named once only.
pub open spec fn directive_of(arg: CliArg, have_scheme: bool, have_outfile: bool) -> Directive {
    if names_option(arg, 'f', "fovy"@) {
        Directive::Number(NumberOption::Fovy)
    } else if names_option(arg, 'r', "center-real"@) {
        Directive::Number(NumberOption::CenterReal)
    } else if names_option(arg, 'i', "center-imag"@) {
        Directive::Number(NumberOption::CenterImag)
    } else if names_option(arg, 'W', "width"@) {
        Directive::Count(CountOption::Width)
    } else if names_option(arg, 'H', "height"@) {
        Directive::Count(CountOption::Height)
    } else if names_option(arg, 's', "supersample"@) {
        Directive::Count(CountOption::Supersample)
    } else if names_option(arg, 'c', "color"@) && !have_scheme {
        Directive::Color
    } else if arg is Value && !have_outfile {
        Directive::Outfile
    } else if names_option(arg, 'h', "help"@) {
        Directive::Help
    } else {
        Directive::Unexpected
    }
}

/// Whether the argument is the option with the given short or long name.
fn is_option(arg: &CliArg, short: char, long: &str) -> (b: bool)
    ensures
        b == names_option(*arg, short, long@),
{
    match arg {
        CliArg::Short(c) => *c == short,
        CliArg::Long(s) => *s == long.to_owned(),
        CliArg::Value(_) => false,
    }
}

/// What `arg` asks for, given whether a colour scheme and an output file have
/// been named already.
pub fn classify(arg: &CliArg, have_scheme: bool, have_outfile: bool) -> (d: Directive)
    ensures
        d == directive_of(*arg, have_scheme, have_outfile),
{
    if is_option(arg, 'f', "fovy") {
        Directive::Number(NumberOption::Fovy)
    } else if is_option(arg, 'r', "center-real") {
        Directive::Number(NumberOption::CenterReal)
    } else if is_option(arg, 'i', "center-imag") {
        Directive::Number(NumberOption::CenterImag)
    } else if is_option(arg, 'W', "width") {
        Directive::Count(CountOption::Width)
    } else if is_option(arg, 'H', "height") {
        Directive::Count(CountOption::Height)
    } else if is_option(arg, 's', "supersample") {
        Directive::Count(CountOption::Supersample)
    } else if is_option(arg, 'c', "color") && !have_scheme {
        Directive::Color
    } else if is_value(arg) && !have_outfile {
        Directive::Outfile
    } else if is_option(arg, 'h', "help") {
        Directive::Help
    } else {
        Directive::Unexpected
    }
}

/// Whether the argument is positional.
fn is_value(arg: &CliArg) -> (b: bool)
    ensures
        b == (*arg is Value),
{
    match arg {
        CliArg::Value(_) => true,
        _ => false,
    }
}

/// The settings that the command line has made so far.
#[derive(Debug)]
pub struct Settings {
    /// The width of the image in pixels.
    pub w: usize,
    /// The height of the image in pixels.
    pub h: usize,
    /// The number of samples along each side of a pixel.
    pub supersampling: usize,
    /// The bits of the real part of the centre of the view.
    pub center_real: u64,
    /// The bits of the imaginary part of the centre of the view.
    pub center_imag: u64,
    /// The bits of the height of the view.
    pub fovy: u64,
    /// The name of the colour scheme, if one was named.
    pub scheme: Option<String>,
    /// The path of the output file, if one was named.
    pub outfile: Option<String>,
}

/// Why the settings are no picture to render.
#[derive(Clone, Copy, Debug, PartialEq, Eq, Structural)]
pub enum SettingsError {
    /// No output file was named.
    MissingOutfile,
    /// The settings describe no view.
    Invalid(ConfigError),
}

/// The stops of the colour map that the settings select: those of the named
/// scheme, or of the default scheme where none was named or the name is not
/// known.
pub open spec fn selected_stops(scheme: Option<String>) -> Seq<ColorStop> {
    match scheme {
        Some(name) => scheme_stops(scheme_or_default(name@)),
        None => scheme_stops(crate::registry::default_scheme()),
    }
}

impl Settings {
    /// The view that the settings describe.
    pub open spec fn view_of(self) -> ConfigView {
        config_view(
            selected_stops(self.scheme),
            self.w,
            self.h,
            self.supersampling,
            self.center_real,
            self.center_imag,
            self.fovy,
        )
    }

    /// What `finish` answers for the settings.
    pub open spec fn check(self) -> Result<(), SettingsError> {
        if self.outfile is None {
            Err(SettingsError::MissingOutfile)
        } else {
            match self.view_of().check() {
                Ok(_) => Ok(()),
                Err(e) => Err(SettingsError::Invalid(e)),
            }
        }
    }

    /// The settings of an empty command line: an image of 4096 by 4096 pixels
    /// without supersampling, a view of height 1 around the origin, no colour
    /// scheme and no output file.
    pub fn new() -> (s: Settings)
        ensures
            s.w == 4096,
            s.h == 4096,
            s.supersampling == 1,
            s.center_real == 0,
            s.center_imag == 0,
            s.fovy == DEFAULT_FOVY,
            s.scheme is None,
            s.outfile is None,
    {
        Settings {
            w: 4096,
            h: 4096,
            supersampling: 1,
            center_real: 0,
            center_imag: 0,
            fovy: DEFAULT_FOVY,
            scheme: None,
            outfile: None,
        }
    }

    /// What `arg` asks for at this point of the command line.
    pub fn directive(&self, arg: &CliArg) -> (d: Directive)
        ensures
            d == directive_of(*arg, self.scheme is Some, self.outfile is Some),
    {
        classify(arg, self.scheme.is_some(), self.outfile.is_some())
    }

    /// Takes the value of a number option, a binary64 number given by its bits.
    pub fn set_number(&mut self, option: NumberOption, value: u64)
        ensures
            *final(self) == match option {
                NumberOption::Fovy => Settings { fovy: value, ..*old(self) },
                NumberOption::CenterReal => Settings { center_real: value, ..*old(self) },
                NumberOption::CenterImag => Settings { center_imag: value, ..*old(self) },
            },
    {
        match option {
            NumberOption::Fovy => {
                self.fovy = value;
            },
            NumberOption::CenterReal => {
                self.center_real = value;
            },
            NumberOption::CenterImag => {
                self.center_imag = value;
            },
        }
    }

    /// Takes the value of a count option.
    pub fn set_count(&mut self, option: CountOption, value: usize)
        ensures
            *final(self) == match option {
                CountOption::Width => Settings { w: value, ..*old(self) },
                CountOption::Height => Settings { h: value, ..*old(self) },
                CountOption::Supersample => Settings { supersampling: value, ..*old(self) },
            },
    {
        match option {
            CountOption::Width => {
                self.w = value;
            },
            CountOption::Height => {
                self.h = value;
            },
            CountOption::Supersample => {
                self.supersampling = value;
            },
        }
    }

    /// Takes the name of the colour scheme.
    pub fn set_scheme(&mut self, name: String)
        ensures
            *final(self) == (Settings { scheme: Some(name), ..*old(self) }),
    {
        self.scheme = Some(name);
    }

    /// Takes the path of the output file.
    pub fn set_outfile(&mut self, path: String)
        ensures
            *final(self) == (Settings { outfile: Some(path), ..*old(self) }),
    {
        self.outfile = Some(path);
    }

    /// The picture that the settings describe, with the path of its file, or
    /// why they describe none.
    pub fn finish(self) -> (r: Result<(Config, String), SettingsError>)
        ensures
            match r {
                Ok((config, path)) => {
                    &&& self.check() is Ok
                    &&& config@ == self.view_of()
                    &&& config@.valid()
                    &&& self.outfile == Some(path)
                },
                Err(e) => self.check() == Err::<(), SettingsError>(e),
            },
    {
        let path = match self.outfile {
            Some(path) => path,
            None => {
                return Err(SettingsError::MissingOutfile);
            },
        };
        let map = match self.scheme {
            Some(name) => get_color_map(name.as_str()),
            None => get_color_map("inferno"),
        };
        match Config::new(
            map,
            self.w,
            self.h,
            self.supersampling,
            self.center_real,
            self.center_imag,
            self.fovy,
        ) {
            Ok(config) => Ok((config, path)),
            Err(e) => Err(SettingsError::Invalid(e)),
        }
    }
}

} // verus!
