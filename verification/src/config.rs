//! The configuration of file system drivers and of the block cache.
use crate::error::Error;
use crate::text;
use vstd::prelude::*;

verus! {

/// A file system driver and the file systems that it serves.
#[derive(Debug, Clone)]
pub struct FSDriverConfig {
    pub name: String,
    pub binary: String,
    pub compatible: Vec<String>,
    pub autostart: bool,
}

/// The configuration.
#[derive(Debug, Clone)]
pub struct FSConfig {
    pub buffer_size: usize,
    pub replacement_policy: String,
    pub write_policy: String,
    pub filesystems: Vec<FSDriverConfig>,
}

/// A file system driver as the configuration file has it; what is left out is `None`.
#[derive(Debug)]
pub struct FSDriverEntry {
    pub name: String,
    pub binary: String,
    pub compatible: Vec<String>,
    pub autostart: Option<bool>,
}

/// The configuration file; what is left out is `None`.
#[derive(Debug)]
pub struct FSConfigFile {
    pub buffer_size: Option<usize>,
    pub replacement_policy: Option<String>,
    pub write_policy: Option<String>,
    pub filesystems: Vec<FSDriverEntry>,
}

/// A driver configuration as a mathematical object.
#[verifier::ext_equal]
pub struct DriverView {
    pub name: Seq<char>,
    pub binary: Seq<char>,
    pub compatible: Seq<Seq<char>>,
    pub autostart: bool,
}

/// A configuration as a mathematical object.
#[verifier::ext_equal]
pub struct ConfigView {
    pub buffer_size: usize,
    pub replacement_policy: Seq<char>,
    pub write_policy: Seq<char>,
    pub filesystems: Seq<DriverView>,
}

impl View for FSDriverConfig {
    type V = DriverView;

    open spec fn view(&self) -> DriverView {
        DriverView {
            name: self.name@,
            binary: self.binary@,
            compatible: text::texts(self.compatible@),
            autostart: self.autostart,
        }
    }
}

impl View for FSConfig {
    type V = ConfigView;

    open spec fn view(&self) -> ConfigView {
        ConfigView {
            buffer_size: self.buffer_size,
            replacement_policy: self.replacement_policy@,
            write_policy: self.write_policy@,
            filesystems: self.filesystems@.map_values(|d: FSDriverConfig| d@),
        }
    }
}

impl View for FSDriverEntry {
    type V = DriverView;

    /// The driver that the entry stands for: it is not started by itself unless the entry says so.
    open spec fn view(&self) -> DriverView {
        DriverView {
            name: self.name@,
            binary: self.binary@,
            compatible: text::texts(self.compatible@),
            autostart: match self.autostart {
                Some(autostart) => autostart,
                None => false,
            },
        }
    }
}

/// The text of a setting, empty where it is left out.
pub open spec fn text_or_empty(setting: Option<String>) -> Seq<char> {
    match setting {
        Some(s) => s@,
        None => Seq::empty(),
    }
}

/// The buffer size where the configuration names none.
pub const DEFAULT_BUFFER_SIZE: usize = 0x20_0000;

impl View for FSConfigFile {
    type V = ConfigView;

    /// The configuration that the file stands for: what is left out has its default.
    open spec fn view(&self) -> ConfigView {
        ConfigView {
            buffer_size: match self.buffer_size {
                Some(size) => size,
                None => DEFAULT_BUFFER_SIZE,
            },
            replacement_policy: text_or_empty(self.replacement_policy),
            write_policy: text_or_empty(self.write_policy),
            filesystems: self.filesystems@.map_values(|d: FSDriverEntry| d@),
        }
    }
}

/// The buffer size where the configuration names none: two megabytes.
pub fn default_buffer_size() -> (r: usize)
    ensures
        r == 2 * 1024 * 1024,
{
    2 * 1024 * 1024
}

fn setting_or_empty(setting: Option<String>) -> (r: String)
    ensures
        r@ == text_or_empty(setting),
{
    match setting {
        Some(s) => s,
        None => String::new(),
    }
}

impl FSDriverConfig {
    /// The driver that an entry of the configuration file stands for.
    pub fn from_entry(entry: FSDriverEntry) -> (r: FSDriverConfig)
        ensures
            r@ == entry@,
    {
        FSDriverConfig {
            name: entry.name,
            binary: entry.binary,
            compatible: entry.compatible,
            autostart: match entry.autostart {
                Some(autostart) => autostart,
                None => false,
            },
        }
    }
}

impl FSConfig {
    /// The configuration out of an attempt to read the configuration file: the error of the
    /// attempt, an invalid configuration where the file did not parse (`None`), and otherwise what
    /// the file says, with the defaults for what it leaves out.
    pub fn load(file: Result<Option<FSConfigFile>, Error>) -> (r: Result<FSConfig, Error>)
        ensures
            match file {
                Err(e) => r is Err && r->Err_0 == e,
                Ok(None) => r is Err && r->Err_0 == Error::InvalidConfig,
                Ok(Some(parsed)) => r is Ok && r->Ok_0@ == parsed@,
            },
    {
        let parsed = match file {
            Err(e) => {
                return Err(e);
            },
            Ok(None) => {
                return Err(Error::InvalidConfig);
            },
            Ok(Some(parsed)) => parsed,
        };
        let ghost wanted = parsed@;
        let mut entries = parsed.filesystems;
        let ghost all = entries@;
        let mut filesystems: Vec<FSDriverConfig> = Vec::new();
        while entries.len() > 0
            invariant
                filesystems@.len() + entries@.len() == all.len(),
                forall|i: int|
                    0 <= i < filesystems@.len() ==> (#[trigger] filesystems@[i])@ == all[i]@,
                entries@ == all.skip(filesystems@.len() as int),
            decreases entries@.len(),
        {
            let entry = entries.remove(0);
            assert(entry == all[filesystems@.len() as int]);
            filesystems.push(FSDriverConfig::from_entry(entry));
            assert(entries@ =~= all.skip(filesystems@.len() as int));
        }
        let config = FSConfig {
            buffer_size: match parsed.buffer_size {
                Some(size) => size,
                None => default_buffer_size(),
            },
            replacement_policy: setting_or_empty(parsed.replacement_policy),
            write_policy: setting_or_empty(parsed.write_policy),
            filesystems,
        };
        assert(config@.filesystems =~= wanted.filesystems);
        Ok(config)
    }
}

/// What the configuration file names is taken as it stands, setting by setting and driver by
/// driver; what it leaves out is two megabytes of buffer, no policies, and drivers that are not
/// started by themselves.
pub proof fn law_file_is_taken_as_it_stands(file: FSConfigFile)
    ensures
        file.buffer_size is Some ==> file@.buffer_size == file.buffer_size->0,
        file.buffer_size is None ==> file@.buffer_size == 2 * 1024 * 1024,
        file.replacement_policy is Some ==> file@.replacement_policy
            == file.replacement_policy->0@,
        file.replacement_policy is None ==> file@.replacement_policy.len() == 0,
        file.write_policy is Some ==> file@.write_policy == file.write_policy->0@,
        file.write_policy is None ==> file@.write_policy.len() == 0,
        file@.filesystems.len() == file.filesystems@.len(),
        forall|i: int|
            #![trigger file@.filesystems[i]]
            0 <= i < file.filesystems@.len() ==> {
                let entry = file.filesystems@[i];
                let driver = file@.filesystems[i];
                &&& driver.name == entry.name@
                &&& driver.binary == entry.binary@
                &&& driver.compatible.len() == entry.compatible@.len()
                &&& forall|k: int|
                    0 <= k < entry.compatible@.len() ==> #[trigger] driver.compatible[k]
                        == entry.compatible@[k]@
                &&& entry.autostart is Some ==> driver.autostart == entry.autostart->0
                &&& entry.autostart is None ==> !driver.autostart
            },
{
}

} // verus!
