//! Where tray items are reached, and the directories that hold their icons.

use vstd::prelude::*;

use crate::number::{decimal, decimal_text, law_decimal_reads_back, parse_i32, signed_value};
use crate::text::{
    after_prefix, cut, find_from, first_part, has_prefix, head, join_path, lemma_find_from, occurs_at,
    path_join, split_once, starts_with, strip_prefix,
};

verus! {

/// The address of the item that registers under `service`: an object path is one of the sender's, a
/// bus name has its item at the usual path.
pub open spec fn item_address(service: Seq<char>, sender: Option<Seq<char>>) -> Option<Seq<char>> {
    if has_prefix(service, "/"@) {
        match sender {
            Some(s) => Some(s + service),
            None => None,
        }
    } else {
        Some(service + "/StatusNotifierItem"@)
    }
}

/// The address of the item that registers under `service`: an object path is one of the sender's, a
/// bus name has its item at the usual path.
pub fn resolve_service_address(service: &str, sender: Option<&str>) -> (r: Option<String>)
    ensures
        match r {
            Some(address) => item_address(
                service@,
                match sender {
                    Some(s) => Some(s@),
                    None => None,
                },
            ) == Some(address@),
            None => has_prefix(service@, "/"@) && sender is None,
        },
{
    if starts_with(service, "/") {
        match sender {
            Some(s) => {
                let mut r = s.to_owned();
                r.append(service);
                Some(r)
            },
            None => None,
        }
    } else {
        let mut r = service.to_owned();
        r.append("/StatusNotifierItem");
        Some(r)
    }
}

/// The bus name and the object path of an address, if it has both.
pub open spec fn destination(address: Seq<char>) -> Option<(Seq<char>, Seq<char>)> {
    match cut(address, "/"@) {
        Some((name, rest)) => Some((name, "/"@ + rest)),
        None => None,
    }
}

/// The bus name and the object path of an address, if it has both.
pub fn split_address(address: &str) -> (r: Option<(String, String)>)
    ensures
        match r {
            Some((name, path)) => destination(address@) == Some((name@, path@)),
            None => destination(address@) is None,
        },
{
    match split_once(address, "/") {
        Some((name, rest)) => {
            let mut path = "/".to_owned();
            path.append(rest.as_str());
            Some((name, path))
        },
        None => None,
    }
}

/// The bus name of an address.
pub open spec fn bus_of(address: Seq<char>) -> Seq<char> {
    head(address, "/"@)
}

/// The bus name of an address.
pub fn bus_name(address: &str) -> (r: String)
    ensures
        r@ == bus_of(address@),
{
    first_part(address, "/")
}

/// A bus name followed by an object path is taken apart into the two.
pub proof fn law_destination_of_name_and_path(name: Seq<char>, path: Seq<char>)
    requires
        !name.contains('/'),
        has_prefix(path, "/"@),
    ensures
        destination(name + path) == Some((name, path)),
        bus_of(name + path) == name,
{
    reveal_strlit("/");
    let s = name + path;
    let n = name.len() as int;
    assert(path[0] == '/') by {
        assert(path.subrange(0, 1) == "/"@);
        assert(path.subrange(0, 1)[0] == '/');
    }
    assert(occurs_at(s, "/"@, n)) by {
        assert(s.subrange(n, n + 1) =~= "/"@);
    }
    lemma_find_from(s, "/"@, 0);
    let k = find_from(s, "/"@, 0)->0;
    assert(find_from(s, "/"@, 0) is Some);
    if k < n {
        assert(s.subrange(k, k + 1)[0] == '/');
        assert(name[k] == '/');
    }
    assert(k == n);
    assert(s.take(n) =~= name);
    assert("/"@ + s.skip(n + 1) =~= path);
}

/// An item is reached where it registered: at its own bus name, or at the object path that it named
/// on the bus name of the sender.
pub proof fn law_registered_item_is_reached(service: Seq<char>, sender: Seq<char>)
    requires
        !sender.contains('/'),
        has_prefix(service, "/"@) || !service.contains('/'),
    ensures
        has_prefix(service, "/"@) ==> destination(item_address(service, Some(sender))->0) == Some(
            (sender, service),
        ),
        !has_prefix(service, "/"@) ==> destination(item_address(service, Some(sender))->0) == Some(
            (service, "/StatusNotifierItem"@),
        ),
{
    if has_prefix(service, "/"@) {
        law_destination_of_name_and_path(sender, service);
    } else {
        reveal_strlit("/");
        reveal_strlit("/StatusNotifierItem");
        assert("/StatusNotifierItem"@.subrange(0, 1) =~= "/"@);
        law_destination_of_name_and_path(service, "/StatusNotifierItem"@);
    }
}

/// The name of the icon directory of a process.
pub open spec fn directory_name(process: nat) -> Seq<char> {
    "ordinary-tray-icons-"@ + decimal_text(process)
}

/// The directory that holds the icons of a process, below the runtime directory.
pub fn icon_directory(runtime_dir: Option<&str>, process: u32) -> (r: String)
    ensures
        r@ == path_join(
            match runtime_dir {
                Some(d) => d@,
                None => "/tmp"@,
            },
            directory_name(process as nat),
        ),
{
    let mut name = "ordinary-tray-icons-".to_owned();
    name.append(decimal(process as u64).as_str());
    match runtime_dir {
        Some(d) => join_path(d, name.as_str()),
        None => join_path("/tmp", name.as_str()),
    }
}

/// The process whose icon directory has this name.
pub open spec fn named_process(file_name: Seq<char>) -> Option<int> {
    match after_prefix(file_name, "ordinary-tray-icons-"@) {
        Some(rest) => match signed_value(rest) {
            Some(n) => if i32::MIN <= n <= i32::MAX {
                Some(n)
            } else {
                None
            },
            None => None,
        },
        None => None,
    }
}

/// How the operating system takes the question whether a process is there.
#[derive(Clone, Copy, Debug, PartialEq, Eq, Structural)]
pub enum Probe {
    Reached,
    Denied,
    Failed,
}

/// Whether a process runs. `probe` asks the operating system; no process has a number below one.
pub fn is_process_running<F: Fn(i32) -> Probe>(process: i32, probe: F) -> (r: bool)
    requires
        forall|p: i32| p > 0 ==> probe.requires((p,)),
    ensures
        process <= 0 ==> !r,
        process > 0 ==> exists|answer: Probe| #[trigger]
            probe.ensures((process,), answer) && r == (answer != Probe::Failed),
{
    if process <= 0 {
        return false;
    }
    let answer = probe(process);
    proof {
        assert(probe.ensures((process,), answer));
    }
    answer != Probe::Failed
}

/// Whether a directory was left behind by another process that no longer runs.
pub fn is_stale_directory<F: Fn(i32) -> Probe>(file_name: &str, own_process: u32, probe: F) -> (r:
    bool)
    requires
        forall|p: i32| p > 0 ==> probe.requires((p,)),
    ensures
        match named_process(file_name@) {
            Some(p) => if p == own_process as i32 {
                !r
            } else if p <= 0 {
                r
            } else {
                exists|answer: Probe| #[trigger]
                    probe.ensures((p as i32,), answer) && r == (answer == Probe::Failed)
            },
            None => !r,
        },
{
    match strip_prefix(file_name, "ordinary-tray-icons-") {
        Some(rest) => match parse_i32(rest.as_str()) {
            Some(process) => {
                if process == #[verifier::truncate] (own_process as i32) {
                    return false;
                }
                let running = is_process_running(process, probe);
                proof {
                    assert(named_process(file_name@) == Some(process as int));
                    if process > 0 {
                        let answer = choose|answer: Probe| #[trigger]
                            probe.ensures((process,), answer) && running == (answer
                                != Probe::Failed);
                        assert(probe.ensures((process as int as i32,), answer));
                    }
                }
                !running
            },
            None => false,
        },
        None => false,
    }
}

/// The name of an icon directory gives its process back, so that the directory of a running process
/// is told from one that was left behind.
pub proof fn law_directory_names_its_process(process: nat)
    requires
        process <= i32::MAX,
    ensures
        named_process(directory_name(process)) == Some(process as int),
{
    let prefix = "ordinary-tray-icons-"@;
    let name = directory_name(process);
    assert(name.take(prefix.len() as int) =~= prefix);
    assert(name.subrange(0, prefix.len() as int) =~= prefix);
    assert(name.skip(prefix.len() as int) =~= decimal_text(process));
    law_decimal_reads_back(process);
}

/// The bus name under which a tray host registers.
pub fn host_name(process: u32) -> (r: String)
    ensures
        r@ == "org.freedesktop.StatusNotifierHost-"@ + decimal_text(process as nat),
{
    let mut name = "org.freedesktop.StatusNotifierHost-".to_owned();
    name.append(decimal(process as u64).as_str());
    name
}

/// An object path is one of the sender's, and a bus name has its item at the usual path; without a sender
/// an object path is nowhere.
pub proof fn law_addresses(service: Seq<char>, sender: Seq<char>)
    ensures
        service.len() > 0 && service[0] == '/' ==> item_address(service, Some(sender)) == Some(
            sender + service,
        ) && item_address(service, None) is None,
        service.len() == 0 || service[0] != '/' ==> item_address(service, Some(sender)) == Some(
            service + "/StatusNotifierItem"@,
        ) && item_address(service, None) == Some(service + "/StatusNotifierItem"@),
{
    reveal_strlit("/");
    if service.len() > 0 {
        assert(service.subrange(0, 1) =~= seq![service[0]]);
        assert("/"@ =~= seq!['/']);
        if service[0] != '/' {
            assert(service.subrange(0, 1)[0] != "/"@[0]);
        }
    }
}

/// An address is taken apart at its first separator; without one it has no object path, and is all bus
/// name.
pub proof fn law_parts_of_an_address(address: Seq<char>)
    ensures
        destination(address) is Some <==> address.contains('/'),
        destination(address) matches Some((name, path)) ==> name + path == address && !name.contains('/')
            && path.len() > 0 && path[0] == '/' && bus_of(address) == name,
        !address.contains('/') ==> bus_of(address) == address,
{
    reveal_strlit("/");
    lemma_find_from(address, "/"@, 0);
    match find_from(address, "/"@, 0) {
        Some(i) => {
            assert(address.subrange(i, i + 1)[0] == '/');
            assert(address[i] == '/');
            let name = address.take(i);
            assert forall|j: int| 0 <= j < name.len() implies #[trigger] name[j] != '/' by {
                if name[j] == '/' {
                    assert(address.subrange(j, j + 1) =~= "/"@);
                    assert(occurs_at(address, "/"@, j));
                }
            }
            assert(name + ("/"@ + address.skip(i + 1)) =~= address);
        },
        None => {
            if address.contains('/') {
                let j = choose|j: int| 0 <= j < address.len() && address[j] == '/';
                assert(address.subrange(j, j + 1) =~= "/"@);
                assert(occurs_at(address, "/"@, j));
            }
        },
    }
}

/// A directory belongs to a process exactly if its name is the prefix followed by a number that fits.
pub proof fn law_names_of_directories(rest: Seq<char>, other: Seq<char>)
    ensures
        named_process("ordinary-tray-icons-"@ + rest) == (match signed_value(rest) {
            Some(n) => if -0x8000_0000 <= n <= 0x7fff_ffff {
                Some(n)
            } else {
                None
            },
            None => None,
        }),
        named_process(other) is Some ==> "ordinary-tray-icons-"@.is_prefix_of(other),
{
    let prefix = "ordinary-tray-icons-"@;
    let name = prefix + rest;
    assert(name.subrange(0, prefix.len() as int) =~= prefix);
    assert(name.skip(prefix.len() as int) =~= rest);
    if has_prefix(other, prefix) {
        assert(prefix =~= other.subrange(0, prefix.len() as int));
    }
}

} // verus!
