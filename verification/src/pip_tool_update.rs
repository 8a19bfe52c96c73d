//! Updates of the installed yt-dlp.
use vstd::prelude::*;

use crate::config::PipToolUpdatesConfig;
use crate::text;

verus! {

/// Where yt-dlp is installed.
pub const YT_DLP_VENV_DIR: &'static str = "/opt/yt-dlp";

/// When updates are made while the server runs.
#[derive(Debug, Clone, Copy, PartialEq, Eq, Structural)]
pub enum PeriodicUpdates {
    /// Never: updates are off.
    Off,
    /// Never: there is no interval between two updates.
    NoInterval,
    /// After every so many seconds.
    Every { seconds: u64 },
}

/// How an update begins.
#[derive(Debug, PartialEq, Eq)]
pub enum UpdateStart {
    /// It does not: updates are off.
    Skip,
    /// It fails.
    Fail { message: String },
    /// Python is run with arguments.
    Run { args: Vec<String> },
}

/// Makes updates of yt-dlp.
#[derive(Debug)]
pub struct PipToolUpdater {
    config: PipToolUpdatesConfig,
}

/// The program in the installation with a name.
pub open spec fn installed(name: Seq<char>) -> Seq<char> {
    YT_DLP_VENV_DIR@ + "/bin/"@ + name
}

/// The arguments with which Python updates a package.
pub open spec fn update_args(package: Seq<char>) -> Seq<Seq<char>> {
    seq!["-m"@, "pip"@, "install"@, "--upgrade"@, package]
}

impl PipToolUpdater {
    /// Whether updates are on.
    pub closed spec fn enabled(self) -> bool {
        self.config.enabled
    }

    /// Whether an update is made when the server starts.
    pub closed spec fn at_startup(self) -> bool {
        self.config.startup_check
    }

    /// The hours between two updates.
    pub closed spec fn hours(self) -> Option<u64> {
        self.config.interval_hours
    }

    /// The package that is updated.
    pub closed spec fn package(self) -> Seq<char> {
        self.config.pip_package@
    }

    /// An updater as it is configured.
    pub fn new(config: PipToolUpdatesConfig) -> (updater: PipToolUpdater)
        ensures
            updater.enabled() == config.enabled,
            updater.at_startup() == config.startup_check,
            updater.hours() == config.interval_hours,
            updater.package() == config.pip_package@,
    {
        PipToolUpdater { config }
    }

    /// Where yt-dlp is.
    pub fn ytdlp_path() -> (path: String)
        ensures
            path@ == installed("yt-dlp"@),
    {
        let mut path: String = YT_DLP_VENV_DIR.to_owned();
        path.append("/bin/");
        path.append("yt-dlp");
        path
    }

    /// Where its Python is.
    pub fn python_path() -> (path: String)
        ensures
            path@ == installed("python"@),
    {
        let mut path: String = YT_DLP_VENV_DIR.to_owned();
        path.append("/bin/");
        path.append("python");
        path
    }

    /// Whether yt-dlp is installed, by which of the two programs are files.
    pub fn verify_install(python_is_file: bool, ytdlp_is_file: bool) -> (verified: Result<(), String>)
        ensures
            match verified {
                Ok(_) => python_is_file && ytdlp_is_file,
                Err(message) => {
                    ||| !python_is_file && message@ == "missing "@ + installed("python"@)
                    ||| python_is_file && !ytdlp_is_file && message@ == "missing "@ + installed(
                        "yt-dlp"@,
                    )
                },
            },
    {
        if !python_is_file {
            let mut message: String = "missing ".to_owned();
            let path: String = Self::python_path();
            message.append(path.as_str());
            return Err(message);
        }
        if !ytdlp_is_file {
            let mut message: String = "missing ".to_owned();
            let path: String = Self::ytdlp_path();
            message.append(path.as_str());
            return Err(message);
        }
        Ok(())
    }

    /// Whether an update is made when the server starts.
    pub fn run_startup_check(&self) -> (due: bool)
        ensures
            due == (self.enabled() && self.at_startup()),
    {
        self.config.enabled && self.config.startup_check
    }

    /// When updates are made while the server runs.
    pub fn start_periodic(&self) -> (updates: PeriodicUpdates)
        ensures
            updates == if !self.enabled() {
                PeriodicUpdates::Off
            } else {
                match self.hours() {
                    Some(hours) => PeriodicUpdates::Every {
                        seconds: crate::config::capped_product(hours, 3600),
                    },
                    None => PeriodicUpdates::NoInterval,
                }
            },
    {
        if !self.config.enabled {
            return PeriodicUpdates::Off;
        }
        match self.config.interval() {
            Some(seconds) => PeriodicUpdates::Every { seconds },
            None => PeriodicUpdates::NoInterval,
        }
    }

    /// Begins an update, by which of the two programs are files.
    pub fn update_once(&self, python_is_file: bool, ytdlp_is_file: bool) -> (start: UpdateStart)
        ensures
            if !self.enabled() {
                start is Skip
            } else if !python_is_file {
                start matches UpdateStart::Fail { message } && message@ == "missing "@ + installed(
                    "python"@,
                )
            } else if !ytdlp_is_file {
                start matches UpdateStart::Fail { message } && message@ == "missing "@ + installed(
                    "yt-dlp"@,
                )
            } else {
                start matches UpdateStart::Run { args } && text::texts(args@) == seq![
                    "-m"@,
                    "pip"@,
                    "install"@,
                    "--upgrade"@,
                    self.package(),
                ]
            },
            start matches UpdateStart::Run { args } ==> text::texts(args@) == update_args(
                self.package(),
            ),
    {
        if !self.config.enabled {
            return UpdateStart::Skip;
        }
        match Self::verify_install(python_is_file, ytdlp_is_file) {
            Ok(_) => {
                let args: Vec<String> = vec![
                    "-m".to_owned(),
                    "pip".to_owned(),
                    "install".to_owned(),
                    "--upgrade".to_owned(),
                    self.config.pip_package.clone(),
                ];
                assert(text::texts(args@) =~= seq![
                    "-m"@,
                    "pip"@,
                    "install"@,
                    "--upgrade"@,
                    self.package(),
                ]);
                UpdateStart::Run { args }
            },
            Err(message) => UpdateStart::Fail { message },
        }
    }

    /// Ends an update, by how pip has exited.
    pub fn update_ended(&self, succeeded: bool, status: &str) -> (ended: Result<(), String>)
        ensures
            match ended {
                Ok(_) => succeeded,
                Err(message) => !succeeded && message@ == "pip install --upgrade "@
                    + self.package() + " exited with "@ + status@,
            },
    {
        if succeeded {
            return Ok(());
        }
        let mut message: String = "pip install --upgrade ".to_owned();
        message.append(self.config.pip_package.as_str());
        message.append(" exited with ");
        message.append(status);
        Err(message)
    }
}

/// The version that yt-dlp has told, by how it has exited and what it has put
/// out.
pub fn ytdlp_version(succeeded: bool, status: &str, output: &str) -> (version: Result<String, String>)
    ensures
        match version {
            Ok(told) => succeeded && told@ == text::trimmed(output@),
            Err(message) => !succeeded && message@ == "yt-dlp --version exited with "@ + status@,
        },
{
    if !succeeded {
        let mut message: String = "yt-dlp --version exited with ".to_owned();
        message.append(status);
        return Err(message);
    }
    let chars: Vec<char> = text::chars_of(output);
    Ok(text::text_of(text::trim(chars.as_slice())))
}

/// The version that is told of in the log.
pub fn version_for_log(version: Result<String, String>) -> (told: String)
    ensures
        match version {
            Ok(known) => told@ == known@,
            Err(reason) => told@ == "unknown ("@ + reason@ + ")"@,
        },
{
    match version {
        Ok(known) => known,
        Err(reason) => {
            let mut told: String = "unknown (".to_owned();
            told.append(reason.as_str());
            told.append(")");
            told
        },
    }
}

/// The programs lie in the installation's directory of programs, under their own
/// names.
pub proof fn lemma_installed_programs(name: Seq<char>)
    ensures
        installed(name) == "/opt/yt-dlp/bin/"@ + name,
        text::ends_with(installed(name), name),
{
    reveal_strlit("/opt/yt-dlp");
    reveal_strlit("/bin/");
    reveal_strlit("/opt/yt-dlp/bin/");
    assert(installed(name) =~= "/opt/yt-dlp/bin/"@ + name);
    text::lemma_behind_head(installed(name), "/opt/yt-dlp/bin/"@, name);
}

/// An update upgrades the configured package with pip: the package is the last
/// argument, and different packages are upgraded by different arguments.
pub proof fn lemma_update_upgrades_its_package(package: Seq<char>, other: Seq<char>)
    ensures
        update_args(package).len() == 5,
        update_args(package).last() == package,
        update_args(package).drop_last() == seq!["-m"@, "pip"@, "install"@, "--upgrade"@],
        update_args(package) == update_args(other) ==> package == other,
{
    assert(update_args(package).drop_last() =~= seq!["-m"@, "pip"@, "install"@, "--upgrade"@]);
    assert(update_args(package)[4] == package);
    assert(update_args(other)[4] == other);
}

} // verus!
