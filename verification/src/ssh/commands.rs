//! The exact command lines of the transport: the rsync push of a backup,
//! the remote delete, and the filtering of a server home-directory listing.
//!
//! The transport runs `rsync -a -e <ssh_option> --exclude='.*' <source>
//! <destination>` for a push and `ssh -p <port> <destination> <command>`
//! for a delete; this module computes those pieces, and the runtime only
//! hands them to the operating system.

use crate::models::app::Config;
use crate::models::backup::Backup;
use crate::models::storage::{Folder, Size};
use crate::paths;
use vstd::prelude::*;
use vstd::string::*;

verus! {

/// The pieces of one rsync push.
pub struct RsyncInvocation {
    pub ssh_option: String,
    pub source: String,
    pub destination: String,
}

/// The pieces of one remote delete.
pub struct SshDeleteInvocation {
    pub port: String,
    pub destination: String,
    pub command: String,
}

/// The remote side of a push: `user@host:path`, with any `http://` scheme
/// stripped from the configured address.
pub open spec fn spec_rsync_destination(server_path: Seq<char>, c: Config) -> Seq<char> {
    c.username@ + "@"@ + paths::strip_prefix(c.server_address@, "http://"@) + ":"@ + server_path
}

/// The client side of a push: the client path, with a trailing slash when a
/// directory's contents are to be merged into the server location rather
/// than mirrored as a named directory.
pub open spec fn spec_rsync_source(b: Backup, is_directory: bool) -> Seq<char> {
    match b.options {
        Some(o) => if !o.use_client_directory && is_directory {
            b.client_location.path@ + "/"@
        } else {
            b.client_location.path@
        },
        None => b.client_location.path@,
    }
}

/// The pieces of the rsync push of a backup: `-e` option `ssh -p <port>`,
/// source per `spec_rsync_source`, destination per
/// `spec_rsync_destination`.
pub fn backup_to_server(b: &Backup, c: &Config, is_directory: bool) -> (r: RsyncInvocation)
    ensures
        r.ssh_option@ == "ssh -p "@ + paths::dec_digits(c.server_port as nat),
        r.source@ == spec_rsync_source(*b, is_directory),
        r.destination@ == spec_rsync_destination(b.server_location.path@, *c),
{
    let mut ssh_option = String::from_str("ssh -p ");
    paths::push_u16_decimal(&mut ssh_option, c.server_port);
    let source = if match &b.options {
        Some(o) => !o.use_client_directory && is_directory,
        None => false,
    } {
        paths::concat2(b.client_location.path.as_str(), "/")
    } else {
        b.client_location.path.clone()
    };
    let scheme = String::from_str("http://");
    let host = paths::strip_prefix_exec(&c.server_address, &scheme);
    let mut destination = c.username.clone();
    destination.append("@");
    destination.append(host.as_str());
    destination.append(":");
    destination.append(b.server_location.path.as_str());
    RsyncInvocation { ssh_option, source, destination }
}

/// The pieces of the remote delete of a backup's server path: the port in
/// decimal, `user@host`, and the command `rm -rf <path>`.
pub fn delete_from_server(b: &Backup, c: &Config) -> (r: SshDeleteInvocation)
    ensures
        r.port@ == paths::dec_digits(c.server_port as nat),
        r.destination@ == c.username@ + "@"@ + paths::strip_prefix(c.server_address@, "http://"@),
        r.command@ == "rm -rf "@ + b.server_location.path@,
{
    let port = paths::u16_to_string(c.server_port);
    let scheme = String::from_str("http://");
    let host = paths::strip_prefix_exec(&c.server_address, &scheme);
    let mut destination = c.username.clone();
    destination.append("@");
    destination.append(host.as_str());
    let command = paths::concat2("rm -rf ", b.server_location.path.as_str());
    SshDeleteInvocation { port, destination, command }
}

/// One entry of the server's home-directory listing, kept when it is a
/// directory whose name does not begin with a dot; its path is
/// `/home/<user>/<name>` and its size the entry's length in bytes.
pub fn home_folder_entry(name: String, is_dir: bool, len: u64, user: &String) -> (r: Option<
    Folder,
>)
    ensures
        (is_dir && !(name@.len() > 0 && name@.first() == '.')) ==> (r matches Some(f)
            && f.name@ == name@ && f.path@ == "/home/"@ + user@ + "/"@ + name@ && f.size == Some(
            Size::B(len),
        )),
        !(is_dir && !(name@.len() > 0 && name@.first() == '.')) ==> r is None,
{
    if !is_dir {
        return None;
    }
    if paths::starts_with_char(&name, '.') {
        return None;
    }
    let mut path = String::from_str("/home/");
    path.append(user.as_str());
    path.append("/");
    path.append(name.as_str());
    Some(Folder { name, path, size: Some(Size::B(len)) })
}

/// The check made after connecting: the remote `whoami` output must be the
/// configured username followed by a newline.
pub fn whoami_matches(user: &String, whoami_stdout: &String) -> (r: bool)
    ensures
        r == (whoami_stdout@ == user@ + "\n"@),
{
    let expected = paths::concat2(user.as_str(), "\n");
    expected == *whoami_stdout
}

} // verus!
