//! What a run is asked to do: where to download from and where to store it.
use vstd::prelude::*;
use vstd::std_specs::convert::FromSpecImpl;

verus! {

/// The server URL and the output file name of a run.
pub struct Config {
    pub server_url: String,
    pub output_filename: String,
}

/// A `Config` as a plain value.
pub struct ConfigView {
    pub server_url: Seq<char>,
    pub output_filename: Seq<char>,
}

impl View for Config {
    type V = ConfigView;

    open spec fn view(&self) -> ConfigView {
        ConfigView { server_url: self.server_url@, output_filename: self.output_filename@ }
    }
}

/// The server URL of a run that names none.
pub open spec fn default_server_url() -> Seq<char> {
    "http://localhost:8080"@
}

/// The output file name of a run that names none.
pub open spec fn default_filename() -> Seq<char> {
    "output.bin"@
}

/// The configuration that a list of program arguments stands for. The first
/// argument is the program's own name; the second, if there is one, is the
/// server URL, and the third the output file name.
pub open spec fn configured(arguments: Seq<String>) -> ConfigView {
    ConfigView {
        server_url: if arguments.len() > 1 {
            arguments[1]@
        } else {
            default_server_url()
        },
        output_filename: if arguments.len() > 2 {
            arguments[2]@
        } else {
            default_filename()
        },
    }
}

impl From<Vec<String>> for Config {
    fn from(arguments: Vec<String>) -> (config: Config)
        ensures
            config@ == configured(arguments@),
    {
        let server_url = if arguments.len() > 1 {
            arguments[1].clone()
        } else {
            "http://localhost:8080".to_owned()
        };
        let filename = if arguments.len() > 2 {
            arguments[2].clone()
        } else {
            "output.bin".to_owned()
        };
        Config { server_url, output_filename: filename }
    }
}

impl FromSpecImpl<Vec<String>> for Config {
    open spec fn obeys_from_spec() -> bool {
        false
    }

    open spec fn from_spec(arguments: Vec<String>) -> Config {
        arbitrary()
    }
}

} // verus!
