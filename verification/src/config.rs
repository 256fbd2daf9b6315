use vstd::prelude::*;

verus! {

/// The name of the folder, under the user's configuration folder, that holds
/// the configuration files.
pub fn config_folder_name() -> (r: &'static str)
    ensures
        r@ == "mad-rust"@,
{
    "mad-rust"
}

/// The name of the configuration file for `filename`: `filename` with the
/// `.json` extension.
pub fn config_file_name(filename: &str) -> (r: String)
    ensures
        r@ == filename@ + ".json"@,
{
    let mut name = filename.to_owned();
    name.append(".json");
    name
}

} // verus!
