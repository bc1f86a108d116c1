//! What Git says of a checkout's configuration, and where it says it.

use vstd::prelude::*;
use vstd::string::*;

use crate::digest::{blake3_digest, digest, hex_char, hex_digit};
use crate::paths::{
    absolute_path, components, copy_bytes, copy_slice, PathName, DOT,
};
use crate::sync::policy::names::{is_private_name, private_parts};
use crate::text::{copy_text, decimal, decimal_text, optional, same_bytes};

verus! {

/// The largest listing of Git's configuration that is read, in bytes.
pub const MAX_CONFIGURATION_BYTES: usize = 16777216;

/// The bytes without the line ending that they end with.
pub open spec fn no_line_ending(bytes: Seq<u8>) -> Seq<u8> {
    let n = bytes.len();
    if n >= 2 && bytes[n - 1] == 10 && bytes[n - 2] == 13 {
        bytes.take(n - 2)
    } else if n >= 1 && bytes[n - 1] == 10 {
        bytes.take(n - 1)
    } else {
        bytes
    }
}

pub fn without_line_ending(bytes: &[u8]) -> (rest: Vec<u8>)
    ensures
        rest@ == no_line_ending(bytes@),
{
    let n: usize = bytes.len();
    let mut rest = copy_slice(bytes);
    if n >= 1 && bytes[n - 1] == 10 {
        rest.pop();
        assert(rest@ =~= bytes@.take(n - 1));
        if n >= 2 && bytes[n - 2] == 13 {
            rest.pop();
            assert(rest@ =~= bytes@.take(n - 2));
        }
    }
    rest
}

/// `path` as seen from `directory`. A leading dot means the directory itself.
pub open spec fn resolved(directory: Seq<Seq<u8>>, path: Seq<Seq<u8>>) -> Seq<Seq<u8>> {
    if absolute_path(path) {
        path
    } else if path.len() > 0 && path[0] == seq![DOT] {
        directory + path.drop_first()
    } else {
        directory + path
    }
}

pub fn absolute(directory: &PathName, path: &PathName) -> (full: PathName)
    ensures
        full@ == resolved(directory@, path@),
{
    if path.is_absolute() {
        return path.copy();
    }
    let mut full = directory.copy();
    let mut from: usize = 0;
    if path.parts.len() > 0 {
        let first = &path.parts[0];
        assert(path@[0] == first@);
        if first.len() == 1 && first[0] == DOT {
            assert(first@ =~= seq![DOT]);
            from = 1;
        }
    }
    let ghost rest = path@.skip(from as int);
    let mut i: usize = from;
    assert(directory@ + rest.take(0) =~= directory@);
    while i < path.parts.len()
        invariant
            from <= i <= path.parts@.len(),
            rest == path@.skip(from as int),
            full@ == directory@ + rest.take(i - from),
        decreases path.parts@.len() - i,
    {
        let part = path.part(i);
        full.push(part);
        assert(directory@ + rest.take(i + 1 - from) =~= (directory@ + rest.take(i - from)).push(
            path@[i as int],
        ));
        i = i + 1;
    }
    assert(rest.take(i - from) =~= rest);
    proof {
        if from == 0 {
            assert(rest =~= path@);
            if path@.len() > 0 && path@[0] == seq![DOT] {
                assert(path.parts@[0]@ == path@[0]);
                assert(path.parts@[0]@.len() == 1 && path.parts@[0]@[0] == DOT);
            }
        } else {
            assert(rest =~= path@.drop_first());
        }
    }
    full
}

/// The fields of a listing, each of which ends with a zero byte: what stands
/// behind the last zero byte is not a field.
pub open spec fn fields(listed: Seq<u8>) -> Seq<Seq<u8>>
    decreases listed.len(),
{
    if listed.len() == 0 {
        seq![]
    } else {
        let end = zero_index(listed);
        if end >= listed.len() {
            seq![]
        } else {
            seq![listed.take(end as int)] + fields(listed.skip(end as int + 1))
        }
    }
}

/// The index of the first zero byte, or the length where there is none.
pub open spec fn zero_index(bytes: Seq<u8>) -> nat
    decreases bytes.len(),
{
    if bytes.len() == 0 || bytes[0] == 0 {
        0
    } else {
        1 + zero_index(bytes.drop_first())
    }
}

proof fn lemma_zero_index(bytes: Seq<u8>, n: int)
    requires
        0 <= n <= bytes.len(),
        forall|i: int| 0 <= i < n ==> bytes[i] != 0,
        n < bytes.len() ==> bytes[n] == 0,
    ensures
        zero_index(bytes) == n,
    decreases n,
{
    if n > 0 {
        let rest = bytes.drop_first();
        assert forall|i: int| 0 <= i < n - 1 implies rest[i] != 0 by {
            assert(rest[i] == bytes[i + 1]);
        }
        lemma_zero_index(rest, n - 1);
    }
}

/// Splits a listing into its fields.
pub fn split_fields(listed: &[u8]) -> (list: Vec<Vec<u8>>)
    ensures
        list@.map_values(|f: Vec<u8>| f@) == fields(listed@),
{
    let ghost view = |f: Vec<u8>| f@;
    let mut list: Vec<Vec<u8>> = Vec::new();
    let mut start: usize = 0;
    assert(listed@.skip(0) =~= listed@);
    assert(list@.map_values(view) =~= seq![]);
    assert(list@.map_values(view) + fields(listed@.skip(0)) =~= fields(listed@));
    let mut open = true;
    while open && start < listed.len()
        invariant
            start <= listed@.len(),
            view == (|f: Vec<u8>| f@),
            fields(listed@) == list@.map_values(view) + if open {
                fields(listed@.skip(start as int))
            } else {
                seq![]
            },
        decreases listed@.len() - start, open as int,
    {
        let ghost rest = listed@.skip(start as int);
        let ghost done = list@.map_values(view);
        let mut field: Vec<u8> = Vec::new();
        let mut end: usize = start;
        assert(rest.take(0) =~= Seq::<u8>::empty());
        while end < listed.len() && listed[end] != 0
            invariant
                start <= end <= listed@.len(),
                rest == listed@.skip(start as int),
                field@ == rest.take(end - start),
                forall|i: int| 0 <= i < end - start ==> rest[i] != 0,
            decreases listed@.len() - end,
        {
            field.push(listed[end]);
            assert(rest.take(end + 1 - start) =~= rest.take(end - start).push(listed@[end as int]));
            end = end + 1;
        }
        proof {
            lemma_zero_index(rest, end - start);
        }
        if end == listed.len() {
            assert(fields(rest) =~= seq![]);
            open = false;
        } else {
            list.push(field);
            assert(listed@.skip(end + 1) =~= rest.skip(end - start + 1));
            assert(list@.map_values(view) =~= done.push(field@));
            assert(done + (seq![field@] + fields(rest.skip(end - start + 1))) =~= done.push(field@)
                + fields(rest.skip(end - start + 1)));
            start = end + 1;
        }
    }
    proof {
        if open {
            assert(listed@.skip(start as int) =~= Seq::<u8>::empty());
        }
        assert(list@.map_values(view) + Seq::<Seq<u8>>::empty() =~= list@.map_values(view));
    }
    list
}

/// What marks an origin that is a file.
pub open spec fn file_marker() -> Seq<u8> {
    vstd::utf8::encode_utf8("file:"@)
}

/// The files that a listing names as origins: every other field is an origin,
/// and those between them are settings. A listing with an origin and no setting
/// behind it is invalid.
pub open spec fn origin_files(list: Seq<Seq<u8>>) -> Option<Seq<Seq<u8>>>
    decreases list.len(),
{
    if list.len() == 0 {
        Some(seq![])
    } else if list.len() == 1 {
        None
    } else {
        match origin_files(list.take(list.len() - 2)) {
            None => None,
            Some(before) => {
                let origin = list[list.len() - 2];
                if file_marker().is_prefix_of(origin) {
                    Some(before.push(origin.skip(file_marker().len() as int)))
                } else {
                    Some(before)
                }
            },
        }
    }
}

/// The part of `bytes` behind `prefix`, where they begin with it.
fn behind(bytes: &Vec<u8>, prefix: &[u8]) -> (rest: Option<Vec<u8>>)
    ensures
        match rest {
            Some(r) => prefix@.is_prefix_of(bytes@) && r@ == bytes@.skip(prefix@.len() as int),
            None => !prefix@.is_prefix_of(bytes@),
        },
{
    if prefix.len() > bytes.len() {
        return None;
    }
    let mut i: usize = 0;
    while i < prefix.len()
        invariant
            i <= prefix@.len() <= bytes@.len(),
            forall|k: int| 0 <= k < i ==> bytes@[k] == prefix@[k],
        decreases prefix@.len() - i,
    {
        if bytes[i] != prefix[i] {
            assert(bytes@.subrange(0, prefix@.len() as int)[i as int] != prefix@[i as int]);
            return None;
        }
        i = i + 1;
    }
    assert(prefix@ =~= bytes@.subrange(0, prefix@.len() as int));
    let mut rest: Vec<u8> = Vec::new();
    while i < bytes.len()
        invariant
            prefix@.len() <= i <= bytes@.len(),
            rest@ == bytes@.subrange(prefix@.len() as int, i as int),
        decreases bytes@.len() - i,
    {
        rest.push(bytes[i]);
        assert(bytes@.subrange(prefix@.len() as int, i + 1) =~= bytes@.subrange(
            prefix@.len() as int,
            i as int,
        ).push(bytes@[i as int]));
        i = i + 1;
    }
    assert(rest@ =~= bytes@.skip(prefix@.len() as int));
    Some(rest)
}

/// The files that Git's listing of a configuration names as origins.
pub fn listing_origins(listed: &[u8]) -> (origins: Result<Vec<Vec<u8>>, String>)
    ensures
        match origins {
            Ok(files) => origin_files(fields(listed@)) == Some(
                files@.map_values(|f: Vec<u8>| f@),
            ),
            Err(message) => origin_files(fields(listed@)) is None && message@
                == "Git returned an invalid configuration listing"@,
        },
{
    let ghost view = |f: Vec<u8>| f@;
    let list = split_fields(listed);
    let ghost all = fields(listed@);
    assert(all.len() == list@.len());
    if list.len() % 2 == 1 {
        proof {
            lemma_odd_listing(all);
        }
        return Err(copy_text("Git returned an invalid configuration listing"));
    }
    let mut files: Vec<Vec<u8>> = Vec::new();
    let mut i: usize = 0;
    assert(all.take(0) =~= Seq::<Seq<u8>>::empty());
    assert(files@.map_values(view) =~= seq![]);
    while i < list.len()
        invariant
            i <= list@.len(),
            i % 2 == 0,
            list@.len() % 2 == 0,
            view == (|f: Vec<u8>| f@),
            all == list@.map_values(view),
            origin_files(all.take(i as int)) == Some(files@.map_values(view)),
        decreases list@.len() - i,
    {
        let ghost before = files@.map_values(view);
        proof {
            let longer = all.take(i + 2);
            assert(longer.len() == i + 2);
            assert(longer.take(longer.len() - 2) =~= all.take(i as int));
            assert(longer[longer.len() - 2] == list@[i as int]@);
        }
        match behind(&list[i], "file:".as_bytes()) {
            Some(file) => {
                files.push(file);
                assert(files@.map_values(view) =~= before.push(file@));
            },
            None => {},
        }
        i = i + 2;
    }
    assert(all.take(i as int) =~= all);
    Ok(files)
}

proof fn lemma_odd_listing(list: Seq<Seq<u8>>)
    requires
        list.len() % 2 == 1,
    ensures
        origin_files(list) is None,
    decreases list.len(),
{
    if list.len() > 1 {
        lemma_odd_listing(list.take(list.len() - 2));
    }
}

/// What Git says of the global exclude file: nothing, or a path that ends with a
/// zero byte.
pub open spec fn excludes_answer(answer: Seq<u8>) -> Result<Option<Seq<u8>>, Seq<char>> {
    if answer.len() == 0 {
        Ok(None)
    } else if answer.last() == 0 {
        Ok(Some(answer.drop_last()))
    } else {
        Err("invalid Git excludes path response"@)
    }
}

pub fn read_excludes(answer: &[u8]) -> (excludes: Result<Option<Vec<u8>>, String>)
    ensures
        match excludes {
            Ok(None) => excludes_answer(answer@) == Ok::<Option<Seq<u8>>, Seq<char>>(None),
            Ok(Some(path)) => excludes_answer(answer@) == Ok::<Option<Seq<u8>>, Seq<char>>(
                Some(path@),
            ),
            Err(message) => excludes_answer(answer@) == Err::<Option<Seq<u8>>, Seq<char>>(message@),
        },
{
    let n: usize = answer.len();
    if n == 0 {
        return Ok(None);
    }
    if answer[n - 1] != 0 {
        return Err(copy_text("invalid Git excludes path response"));
    }
    let mut path = copy_slice(answer);
    path.pop();
    assert(path@ =~= answer@.drop_last());
    Ok(Some(path))
}

/// The global exclude file of a directory: an explicitly empty setting disables
/// it, and only an absent one selects the default.
pub open spec fn excludes_choice(
    directory: Seq<Seq<u8>>,
    setting: Option<Seq<u8>>,
    default: Option<Seq<Seq<u8>>>,
) -> Option<Seq<Seq<u8>>> {
    match setting {
        Some(path) => if path.len() == 0 {
            None
        } else {
            Some(resolved(directory, crate::paths::components(path)))
        },
        None => default,
    }
}

/// The view of a path that may be absent.
pub open spec fn optional_path(path: Option<PathName>) -> Option<Seq<Seq<u8>>> {
    match path {
        Some(p) => Some(p@),
        None => None,
    }
}

/// The view of bytes that may be absent.
pub open spec fn optional_bytes(bytes: Option<Vec<u8>>) -> Option<Seq<u8>> {
    match bytes {
        Some(b) => Some(b@),
        None => None,
    }
}

pub fn chosen_excludes(directory: &PathName, setting: &Option<Vec<u8>>, default: &Option<PathName>)
    -> (excludes: Option<PathName>)
    ensures
        optional_path(excludes) == excludes_choice(
            directory@,
            optional_bytes(*setting),
            optional_path(*default),
        ),
{
    match setting {
        Some(path) => {
            if path.len() == 0 {
                None
            } else {
                Some(absolute(directory, &PathName::parse(path.as_slice())))
            }
        },
        None => match default {
            Some(d) => Some(d.copy()),
            None => None,
        },
    }
}

/// The bytes whose digest stands for a configuration: the listing, a zero byte,
/// and the global exclude file where one is set.
pub open spec fn configuration_bytes(listed: Seq<u8>, excludes: Option<Seq<u8>>) -> Seq<u8> {
    listed + seq![0u8] + match excludes {
        Some(path) => path,
        None => seq![],
    }
}

/// The digest that stands for a configuration.
pub fn fingerprint(listed: &[u8], excludes: &Option<Vec<u8>>) -> (print: [u8; 32])
    ensures
        print@ == blake3_digest(configuration_bytes(listed@, optional_bytes(*excludes))),
{
    let mut bytes = copy_slice(listed);
    bytes.push(0);
    match excludes {
        Some(path) => {
            let mut more = copy_bytes(path);
            bytes.append(&mut more);
            assert(bytes@ =~= configuration_bytes(listed@, Some(path@)));
        },
        None => {
            assert(bytes@ =~= configuration_bytes(listed@, None));
        },
    }
    digest(bytes.as_slice())
}

/// Whether Git could not be asked before and cannot be asked now, or answers as
/// it did.
pub fn verify_configuration(expected: &Option<[u8; 32]>, current: &Option<[u8; 32]>) -> (verified:
    Result<(), String>)
    ensures
        match (expected, current) {
            (None, None) => verified is Ok,
            (Some(a), Some(b)) => if a@ == b@ {
                verified is Ok
            } else {
                verified matches Err(message) && message@
                    == "Git source policy changed during sync; retry sync"@
            },
            _ => verified matches Err(message) && message@
                == "Git source policy changed during sync; retry sync"@,
        },
{
    let same = match (expected, current) {
        (None, None) => true,
        (Some(a), Some(b)) => same_bytes(a.as_slice(), b.as_slice()),
        _ => false,
    };
    if same {
        Ok(())
    } else {
        Err(copy_text("Git source policy changed during sync; retry sync"))
    }
}

/// What Git answers of a directory: the listing of its configuration, and the
/// global exclude file where one is set.
pub struct GitAnswer {
    pub listed: Vec<u8>,
    pub excludes: Option<Vec<u8>>,
}

/// Whether Git is there to answer, once it was asked for the listing: a status
/// other than zero is no answer.
pub fn has_answered(listing: &Option<(i32, Vec<u8>)>) -> (answered: Result<bool, String>)
    ensures
        match *listing {
            None => answered == Ok::<bool, String>(false),
            Some((status, _)) => if status == 0 {
                answered == Ok::<bool, String>(true)
            } else {
                answered matches Err(message) && message@ == bad_status(status)
            },
        },
{
    match listing {
        None => Ok(false),
        Some((status, _)) => {
            if *status == 0 {
                Ok(true)
            } else {
                Err(status_message(*status))
            }
        },
    }
}

impl GitAnswer {
    /// The answer of Git: its listing, with what it says of the global exclude file.
    /// It has to be there for both questions.
    pub fn read(listed: Vec<u8>, setting: &Option<(i32, Vec<u8>)>) -> (answer: Result<
        GitAnswer,
        String,
    >)
        ensures
            match *setting {
                None => answer matches Err(message) && message@
                    == "Git became unavailable while reading source policy"@,
                Some((_, bytes)) => match answer {
                    Ok(a) => a.listed@ == listed@ && excludes_answer(bytes@) == Ok::<
                        Option<Seq<u8>>,
                        Seq<char>,
                    >(optional_bytes(a.excludes)),
                    Err(message) => excludes_answer(bytes@) == Err::<Option<Seq<u8>>, Seq<char>>(
                        message@,
                    ),
                },
            },
    {
        match setting {
            None => Err(copy_text("Git became unavailable while reading source policy")),
            Some((_, bytes)) => match read_excludes(bytes.as_slice()) {
                Ok(excludes) => Ok(GitAnswer { listed, excludes }),
                Err(message) => Err(message),
            },
        }
    }
}

/// The configuration that a policy was loaded with.
pub struct Configuration {
    pub directory: PathName,
    /// The digest that stands for what Git answered, where it could be asked.
    pub fingerprint: Option<[u8; 32]>,
    /// The global exclude file.
    pub excludes: Option<PathName>,
}

/// The digest that stands for an answer.
pub open spec fn answer_digest(answer: Option<GitAnswer>) -> Option<Seq<u8>> {
    match answer {
        Some(a) => Some(
            blake3_digest(configuration_bytes(a.listed@, optional_bytes(a.excludes))),
        ),
        None => None,
    }
}

/// The view of a digest that may be absent.
pub open spec fn optional_digest(print: Option<[u8; 32]>) -> Option<Seq<u8>> {
    match print {
        Some(p) => Some(p@),
        None => None,
    }
}

fn answer_fingerprint(answer: &Option<GitAnswer>) -> (print: Option<[u8; 32]>)
    ensures
        optional_digest(print) == answer_digest(*answer),
{
    match answer {
        Some(a) => Some(fingerprint(a.listed.as_slice(), &a.excludes)),
        None => None,
    }
}

impl Configuration {
    /// The configuration of a directory. `configured` says that a global
    /// configuration file exists, `in_repository` that the directory lies in a
    /// repository; without Git neither may hold, as nobody could say what is
    /// excluded.
    pub fn load(
        directory: &PathName,
        answer: &Option<GitAnswer>,
        configured: bool,
        in_repository: bool,
        default: &Option<PathName>,
    ) -> (loaded: Result<Configuration, String>)
        ensures
            match loaded {
                Ok(c) => {
                    &&& answer is Some || !configured && !in_repository
                    &&& c.directory@ == directory@
                    &&& optional_digest(c.fingerprint) == answer_digest(*answer)
                    &&& optional_path(c.excludes) == excludes_choice(
                        directory@,
                        match answer {
                            Some(a) => optional_bytes(a.excludes),
                            None => None,
                        },
                        optional_path(*default),
                    )
                },
                Err(message) => answer is None && if configured {
                    message@ == "Git is required to validate configured source exclusions"@
                } else {
                    in_repository && message@
                        == "Git is required to validate checkout source policy"@
                },
            },
    {
        let fingerprint = answer_fingerprint(answer);
        let excludes = match answer {
            Some(a) => chosen_excludes(directory, &a.excludes, default),
            None => {
                match check_without_git(configured, in_repository) {
                    Ok(()) => {},
                    Err(message) => return Err(message),
                }
                chosen_excludes(directory, &None, default)
            },
        };
        Ok(Configuration { directory: directory.copy(), fingerprint, excludes })
    }

    /// Compares the configuration with what Git answers now.
    pub fn verify(&self, current: &Option<GitAnswer>) -> (verified: Result<(), String>)
        ensures
            match verified {
                Ok(()) => optional_digest(self.fingerprint) == answer_digest(*current),
                Err(message) => optional_digest(self.fingerprint) != answer_digest(*current)
                    && message@ == "Git source policy changed during sync; retry sync"@,
            },
    {
        let now = answer_fingerprint(current);
        verify_configuration(&self.fingerprint, &now)
    }
}

/// What the process environment says of Git's configuration files, each value as
/// the bytes that it holds.
pub struct GitEnvironment {
    pub no_system: bool,
    pub system: Option<Vec<u8>>,
    pub global: Option<Vec<u8>>,
    pub xdg_config_home: Option<Vec<u8>>,
    /// The home variable as it is set, which Git honours on every platform.
    pub home_variable: Option<Vec<u8>>,
    /// The home directory that the system knows of the user.
    pub profile: Option<Vec<u8>>,
}

/// The directory that a variable names, where it is set and not empty.
pub open spec fn set_directory(variable: Option<Seq<u8>>) -> Option<Seq<Seq<u8>>> {
    match variable {
        Some(dir) if dir.len() > 0 => Some(components(dir)),
        _ => None,
    }
}

fn directory_set(variable: &Option<Vec<u8>>) -> (directory: Option<PathName>)
    ensures
        optional_path(directory) == set_directory(optional_bytes(*variable)),
{
    match variable {
        Some(dir) => {
            if dir.len() > 0 {
                Some(PathName::parse(dir.as_slice()))
            } else {
                None
            }
        },
        None => None,
    }
}

/// The home directory that Git uses: the variable, unless it is unset or empty,
/// and otherwise the one that the system knows.
pub open spec fn home_directory(variable: Option<Seq<u8>>, profile: Option<Seq<u8>>) -> Option<
    Seq<Seq<u8>>,
> {
    match (set_directory(variable), profile) {
        (Some(dir), _) => Some(dir),
        (None, Some(dir)) => Some(components(dir)),
        (None, None) => None,
    }
}

/// The base of a user's configuration: an empty variable counts as unset.
pub open spec fn config_base(xdg: Option<Seq<u8>>, home: Option<Seq<Seq<u8>>>) -> Option<
    Seq<Seq<u8>>,
> {
    match (set_directory(xdg), home) {
        (Some(dir), _) => Some(dir),
        (None, Some(dir)) => Some(dir.push(vstd::utf8::encode_utf8(".config"@))),
        (None, None) => None,
    }
}

impl GitEnvironment {
    pub open spec fn home(self) -> Option<Seq<Seq<u8>>> {
        home_directory(optional_bytes(self.home_variable), optional_bytes(self.profile))
    }

    pub open spec fn base(self) -> Option<Seq<Seq<u8>>> {
        config_base(optional_bytes(self.xdg_config_home), self.home())
    }
}

/// The home directory that Git uses.
pub fn git_home_dir(environment: &GitEnvironment) -> (home: Option<PathName>)
    ensures
        optional_path(home) == environment.home(),
{
    match directory_set(&environment.home_variable) {
        Some(dir) => Some(dir),
        None => match &environment.profile {
            Some(dir) => Some(PathName::parse(dir.as_slice())),
            None => None,
        },
    }
}

/// The base of the user's configuration.
pub fn xdg_config_dir(environment: &GitEnvironment) -> (base: Option<PathName>)
    ensures
        optional_path(base) == environment.base(),
{
    match directory_set(&environment.xdg_config_home) {
        Some(dir) => Some(dir),
        None => match git_home_dir(environment) {
            Some(dir) => Some(dir.child(".config".as_bytes())),
            None => None,
        },
    }
}

/// A file of Git's below the base of the user's configuration.
pub open spec fn git_file(base: Seq<Seq<u8>>, name: Seq<char>) -> Seq<Seq<u8>> {
    base.push(vstd::utf8::encode_utf8("git"@)).push(vstd::utf8::encode_utf8(name))
}

/// The global exclude file that Git uses where none is set.
pub fn default_excludes(environment: &GitEnvironment) -> (file: Option<PathName>)
    ensures
        optional_path(file) == match environment.base() {
            Some(base) => Some(git_file(base, "ignore"@)),
            None => None,
        },
{
    match xdg_config_dir(environment) {
        Some(base) => Some(base.child("git".as_bytes()).child("ignore".as_bytes())),
        None => None,
    }
}

/// The system-wide configuration file, where there is one to look at.
pub open spec fn system_config(environment: GitEnvironment) -> Seq<Seq<Seq<u8>>> {
    if environment.no_system {
        seq![]
    } else {
        match environment.system {
            Some(path) => seq![components(path@)],
            None => seq![components(vstd::utf8::encode_utf8("/etc/gitconfig"@))],
        }
    }
}

/// The user's configuration files.
pub open spec fn user_config(environment: GitEnvironment) -> Seq<Seq<Seq<u8>>> {
    match environment.global {
        Some(path) => seq![components(path@)],
        None => (match environment.home() {
            Some(home) => seq![home.push(vstd::utf8::encode_utf8(".gitconfig"@))],
            None => seq![],
        }) + (match environment.base() {
            Some(base) => seq![git_file(base, "config"@)],
            None => seq![],
        }),
    }
}

/// The files that select Git's global configuration.
pub fn global_config_paths(environment: &GitEnvironment) -> (paths: Vec<PathName>)
    ensures
        paths@.map_values(|p: PathName| p@) == system_config(*environment) + user_config(*environment),
{
    let mut paths: Vec<PathName> = Vec::new();
    if !environment.no_system {
        match &environment.system {
            Some(path) => paths.push(PathName::parse(path.as_slice())),
            None => paths.push(PathName::from_text("/etc/gitconfig")),
        }
    }
    assert(paths@.map_values(|p: PathName| p@) =~= system_config(*environment));
    match &environment.global {
        Some(path) => {
            paths.push(PathName::parse(path.as_slice()));
        },
        None => {
            match git_home_dir(environment) {
                Some(home) => paths.push(home.child(".gitconfig".as_bytes())),
                None => {},
            }
            match xdg_config_dir(environment) {
                Some(base) => {
                    let file = base.child("git".as_bytes()).child("config".as_bytes());
                    paths.push(file);
                },
                None => {},
            }
        },
    }
    assert(paths@.map_values(|p: PathName| p@) =~= system_config(*environment) + user_config(*environment));
    paths
}

/// The Git directory that the marker file of a linked worktree names.
pub open spec fn marker_target(content: Seq<u8>) -> Result<Seq<u8>, Seq<char>> {
    let prefix = vstd::utf8::encode_utf8("gitdir: "@);
    if !prefix.is_prefix_of(content) {
        Err("invalid Git directory marker"@)
    } else if no_line_ending(content.skip(prefix.len() as int)).len() == 0 {
        Err("empty Git directory marker"@)
    } else {
        Ok(no_line_ending(content.skip(prefix.len() as int)))
    }
}

pub fn read_marker(content: &Vec<u8>) -> (target: Result<Vec<u8>, String>)
    ensures
        match target {
            Ok(path) => marker_target(content@) == Ok::<Seq<u8>, Seq<char>>(path@),
            Err(message) => marker_target(content@) == Err::<Seq<u8>, Seq<char>>(message@),
        },
{
    let value = match behind(content, "gitdir: ".as_bytes()) {
        Some(value) => value,
        None => return Err(copy_text("invalid Git directory marker")),
    };
    let path = without_line_ending(value.as_slice());
    if path.len() == 0 {
        return Err(copy_text("empty Git directory marker"));
    }
    Ok(path)
}

/// The directory that a worktree shares with its repository: what the worktree's
/// own directory says, or that directory itself.
pub fn common_directory(git_dir: &PathName, common: &Option<Vec<u8>>) -> (directory: Result<
    PathName,
    String,
>)
    ensures
        match common {
            None => directory matches Ok(d) && d@ == git_dir@,
            Some(content) => if no_line_ending(content@).len() == 0 {
                directory matches Err(message) && message@ == "empty Git common directory"@
            } else {
                directory matches Ok(d) && d@ == resolved(
                    git_dir@,
                    crate::paths::components(no_line_ending(content@)),
                )
            },
        },
{
    match common {
        None => Ok(git_dir.copy()),
        Some(content) => {
            let value = without_line_ending(content.as_slice());
            if value.len() == 0 {
                return Err(copy_text("empty Git common directory"));
            }
            Ok(absolute(git_dir, &PathName::parse(value.as_slice())))
        },
    }
}

/// How one query of Git went.
pub enum GitOutcome {
    /// Git is not installed.
    Missing,
    /// Git was stopped by a signal.
    Interrupted,
    TimedOut,
    /// The exit status and how many bytes Git wrote.
    Finished { status: i32, bytes: usize },
}

/// What is said of an exit status that does not answer.
pub open spec fn bad_status(status: i32) -> Seq<char> {
    "Git could not read source policy configuration (exit "@ + crate::text::signed_decimal(
        status as int,
    ) + ")"@
}

/// Why a query cannot be used, where it cannot: only the statuses zero and one
/// answer it, and the answer has to be of a size that is read.
pub open spec fn query_fault(outcome: GitOutcome) -> Option<Seq<char>> {
    match outcome {
        GitOutcome::Missing => None,
        GitOutcome::Interrupted => Some("Git source policy query was interrupted"@),
        GitOutcome::TimedOut => Some("Git source policy query timed out"@),
        GitOutcome::Finished { status, bytes } => if status != 0 && status != 1 {
            Some(bad_status(status))
        } else if bytes > MAX_CONFIGURATION_BYTES {
            Some("Git source policy configuration exceeds 16 MiB"@)
        } else {
            None
        },
    }
}

pub fn check_query(outcome: &GitOutcome) -> (usable: Result<(), String>)
    ensures
        match usable {
            Ok(()) => query_fault(*outcome) is None,
            Err(message) => query_fault(*outcome) == Some(message@),
        },
{
    match outcome {
        GitOutcome::Missing => Ok(()),
        GitOutcome::Interrupted => Err(copy_text("Git source policy query was interrupted")),
        GitOutcome::TimedOut => Err(copy_text("Git source policy query timed out")),
        GitOutcome::Finished { status, bytes } => {
            if *status != 0 && *status != 1 {
                return Err(status_message(*status));
            }
            if *bytes > MAX_CONFIGURATION_BYTES {
                return Err(copy_text("Git source policy configuration exceeds 16 MiB"));
            }
            Ok(())
        },
    }
}

fn status_message(status: i32) -> (message: String)
    ensures
        message@ == bad_status(status),
{
    let mut message = copy_text("Git could not read source policy configuration (exit ");
    message.push_str(crate::text::signed_text(status as i64).as_str());
    message.push_str(")");
    message
}

/// What a policy needs where Git is missing: nothing may be configured, and no
/// directory above may be a repository.
pub fn check_without_git(configured: bool, in_repository: bool) -> (usable: Result<(), String>)
    ensures
        match usable {
            Ok(()) => !configured && !in_repository,
            Err(message) => if configured {
                message@ == "Git is required to validate configured source exclusions"@
            } else {
                in_repository && message@ == "Git is required to validate checkout source policy"@
            },
        },
{
    if configured {
        return Err(copy_text("Git is required to validate configured source exclusions"));
    }
    if in_repository {
        return Err(copy_text("Git is required to validate checkout source policy"));
    }
    Ok(())
}

/// A number in hexadecimal, as twelve lower-case digits.
pub open spec fn hex_number(n: nat, digits: nat) -> Seq<char>
    decreases digits,
{
    if digits == 0 {
        seq![]
    } else {
        hex_number(n / 16, (digits - 1) as nat).push(hex_digit(n % 16))
    }
}

fn hex_digits(n: u32, digits: usize) -> (text: String)
    ensures
        text@ == hex_number(n as nat, digits as nat),
    decreases digits,
{
    if digits == 0 {
        let text = String::new();
        return text;
    }
    let mut text = hex_digits(n / 16, digits - 1);
    text.push(hex_char((n % 16) as u8));
    text
}

/// The name of a private scratch file.
pub open spec fn scratch_name(process: u32, index: u64) -> Seq<char> {
    ".semctl-"@ + hex_number(process as nat, 12) + "-"@ + decimal(index as nat) + ".tmp"@
}

/// The name of the scratch file that takes the output of a query of Git. Its
/// name is private, so that its events cause no further query.
pub fn capture_name(process: u32, index: u64) -> (name: String)
    ensures
        name@ == scratch_name(process, index),
        is_private_name(name@),
{
    let mut name = copy_text(".semctl-");
    name.push_str(hex_digits(process, 12).as_str());
    name.push_str("-");
    name.push_str(decimal_text(index).as_str());
    name.push_str(".tmp");
    proof {
        law_scratch_names_are_private(process, index);
    }
    name
}

/// Every scratch file that a query of Git writes has a private name.
pub proof fn law_scratch_names_are_private(process: u32, index: u64)
    ensures
        is_private_name(scratch_name(process, index)),
{
    let digest = hex_number(process as nat, 12);
    let number = decimal(index as nat);
    lemma_hex_number(process as nat, 12);
    lemma_decimal_is_plain(index as nat);
    assert(private_parts(scratch_name(process, index), digest, number, ".tmp"@));
}

proof fn lemma_hex_number(n: nat, digits: nat)
    ensures
        hex_number(n, digits).len() == digits,
        forall|i: int|
            0 <= i < digits ==> crate::sync::policy::names::is_lower_hex(
                #[trigger] hex_number(n, digits)[i],
            ),
    decreases digits,
{
    if digits > 0 {
        lemma_hex_number(n / 16, (digits - 1) as nat);
        let shorter = hex_number(n / 16, (digits - 1) as nat);
        assert forall|i: int| 0 <= i < digits implies crate::sync::policy::names::is_lower_hex(
            #[trigger] hex_number(n, digits)[i],
        ) by {
            if i < digits - 1 {
                assert(hex_number(n, digits)[i] == shorter[i]);
            }
        }
    }
}

proof fn lemma_decimal_is_plain(n: nat)
    ensures
        crate::sync::policy::names::is_plain_number(decimal(n)),
        n > 0 ==> decimal(n)[0] != '0',
    decreases n,
{
    if n >= 10 {
        lemma_decimal_is_plain(n / 10);
        let shorter = decimal(n / 10);
        assert forall|i: int| 0 <= i < decimal(n).len() implies crate::text::is_digit(
            #[trigger] decimal(n)[i],
        ) by {
            if i < shorter.len() {
                assert(decimal(n)[i] == shorter[i]);
            }
        }
        assert(decimal(n)[0] == shorter[0]);
    }
}

/// One line end is dropped from an answer, of either form, and nothing else.
pub proof fn law_one_line_end_is_dropped(text: Seq<u8>)
    ensures
        text.len() == 0 || text.last() != 10 ==> no_line_ending(text) == text,
        text.len() == 0 || text.last() != 13 ==> no_line_ending(text + seq![10u8]) == text,
        no_line_ending(text + seq![13u8, 10u8]) == text,
{
    let a = text + seq![10u8];
    assert(a.take(a.len() - 1) =~= text);
    let b = text + seq![13u8, 10u8];
    assert(b.take(b.len() - 2) =~= text);
}

/// A path that begins at the root is taken as it is, and any other one below the
/// directory. The directory itself at its beginning says nothing.
pub proof fn law_relative_paths_lie_below(directory: Seq<Seq<u8>>, path: Seq<Seq<u8>>)
    ensures
        path.len() > 0 && path[0] == seq![47u8] ==> resolved(directory, path) == path,
        !(path.len() > 0 && path[0] == seq![47u8]) ==> directory.is_prefix_of(
            resolved(directory, path),
        ),
        path.len() == 0 || (path[0] != seq![47u8] && path[0] != seq![46u8]) ==> resolved(
            directory,
            path,
        ) == directory + path,
        resolved(directory, seq![seq![46u8]] + path) == directory + path,
{
    let rest = resolved(directory, path);
    if !(path.len() > 0 && path[0] == seq![47u8]) {
        assert(!absolute_path(path));
        assert(rest.take(directory.len() as int) =~= directory);
    }
    let dotted = seq![seq![46u8]] + path;
    assert(dotted[0] == seq![46u8]);
    assert(seq![46u8][0] != seq![47u8][0]);
    assert(crate::paths::root_component()[0] == 47u8);
    assert(dotted.drop_first() =~= path);
}

/// A listing is its fields, each ended by a zero; what has no zero behind it is no
/// field.
pub proof fn law_fields_end_at_zeros(field: Seq<u8>, rest: Seq<u8>)
    requires
        !field.contains(0u8),
    ensures
        fields(field + seq![0u8] + rest) == seq![field] + fields(rest),
        fields(field).len() == 0,
{
    let all = field + seq![0u8] + rest;
    let n = field.len() as int;
    assert forall|i: int| 0 <= i < n implies #[trigger] field[i] != 0 by {
        assert(field.contains(field[i]));
    }
    assert forall|i: int| 0 <= i < n implies #[trigger] all[i] != 0 by {
        assert(all[i] == field[i]);
    }
    assert(all[n] == 0);
    lemma_first_zero(all, n);
    lemma_first_zero(field, n);
    assert(all.take(n) =~= field);
    assert(all.skip(n + 1) =~= rest);
}

proof fn lemma_first_zero(bytes: Seq<u8>, n: int)
    requires
        0 <= n <= bytes.len(),
        n < bytes.len() ==> bytes[n] == 0,
        forall|i: int| 0 <= i < n ==> #[trigger] bytes[i] != 0,
    ensures
        zero_index(bytes) == n,
    decreases n,
{
    if n > 0 {
        assert(bytes[0] != 0);
        let rest = bytes.drop_first();
        assert(forall|i: int| 0 <= i < n - 1 ==> #[trigger] rest[i] == bytes[i + 1]);
        lemma_first_zero(rest, n - 1);
    }
}

/// A configuration listing is pairs of an origin and a setting. The files are the
/// origins that are marked as files, without the mark; a listing with half a pair is
/// refused.
pub proof fn law_origins_are_listed_in_pairs(
    list: Seq<Seq<u8>>,
    origin: Seq<u8>,
    setting: Seq<u8>,
)
    ensures
        origin_files(seq![]) == Some(Seq::<Seq<u8>>::empty()),
        origin_files(seq![origin]) is None,
        ({
            let more = list + seq![origin, setting];
            let marker = vstd::utf8::encode_utf8("file:"@);
            &&& origin_files(list) is None ==> origin_files(more) is None
            &&& origin_files(list) is Some && marker.is_prefix_of(origin) ==> origin_files(more)
                == Some(origin_files(list)->0 + seq![origin.skip(marker.len() as int)])
            &&& origin_files(list) is Some && !marker.is_prefix_of(origin) ==> origin_files(more)
                == origin_files(list)
        }),
{
    let more = list + seq![origin, setting];
    assert(more.take(more.len() - 2) =~= list);
    assert(more[more.len() - 2] == origin);
}

/// What Git answers of the exclude file: nothing, or a path with a zero behind it.
/// An empty path chooses no file, a path is taken below the directory, and without an
/// answer the default holds.
pub proof fn law_which_exclude_file_is_chosen(
    directory: Seq<Seq<u8>>,
    path: Seq<u8>,
    default: Option<Seq<Seq<u8>>>,
)
    ensures
        excludes_answer(seq![]) == Ok::<Option<Seq<u8>>, Seq<char>>(None),
        excludes_answer(path + seq![0u8]) == Ok::<Option<Seq<u8>>, Seq<char>>(Some(path)),
        path.len() > 0 && path.last() != 0 ==> excludes_answer(path) == Err::<
            Option<Seq<u8>>,
            Seq<char>,
        >("invalid Git excludes path response"@),
        excludes_choice(directory, None, default) == default,
        excludes_choice(directory, Some(seq![]), default) is None,
        path.len() > 0 ==> excludes_choice(directory, Some(path), default) == Some(
            resolved(directory, components(path)),
        ),
{
    let answer = path + seq![0u8];
    assert(answer.drop_last() =~= path);
    assert(answer.last() == 0);
}

/// The digest of a configuration covers the listing and the exclude file: two
/// configurations with the same bytes and the same listing have the same exclude
/// file, where both name one.
pub proof fn law_a_fingerprint_covers_the_configuration(
    listed: Seq<u8>,
    excludes: Seq<u8>,
    other: Seq<u8>,
)
    ensures
        configuration_bytes(listed, None) == listed + seq![0u8],
        configuration_bytes(listed, Some(excludes)) == listed + seq![0u8] + excludes,
        configuration_bytes(listed, Some(excludes)) == configuration_bytes(listed, Some(other))
            ==> excludes == other,
{
    assert(listed + seq![0u8] + Seq::<u8>::empty() =~= listed + seq![0u8]);
    let a = configuration_bytes(listed, Some(excludes));
    let b = configuration_bytes(listed, Some(other));
    let n = listed.len() as int + 1;
    assert(a.skip(n) =~= excludes);
    assert(b.skip(n) =~= other);
}

/// Where Git looks for the settings of the user: in the directory that the variable
/// names, where it is set and not empty; otherwise below the home directory, which
/// is that of the variable or else that of the profile.
pub proof fn law_where_the_settings_of_the_user_lie(
    variable: Seq<u8>,
    profile: Seq<u8>,
    xdg: Seq<u8>,
    home: Seq<Seq<u8>>,
)
    ensures
        variable.len() > 0 ==> home_directory(Some(variable), Some(profile)) == Some(
            components(variable),
        ) && home_directory(Some(variable), None) == Some(components(variable)),
        home_directory(None, Some(profile)) == Some(components(profile)),
        home_directory(Some(seq![]), Some(profile)) == Some(components(profile)),
        home_directory(None, None) is None,
        xdg.len() > 0 ==> config_base(Some(xdg), Some(home)) == Some(components(xdg))
            && config_base(Some(xdg), None) == Some(components(xdg)),
        config_base(None, Some(home)) == Some(home + seq![vstd::utf8::encode_utf8(".config"@)]),
        config_base(Some(seq![]), Some(home)) == Some(
            home + seq![vstd::utf8::encode_utf8(".config"@)],
        ),
        config_base(None, None) is None,
        git_file(home, "ignore"@) == home + seq![
            vstd::utf8::encode_utf8("git"@),
            vstd::utf8::encode_utf8("ignore"@),
        ],
{
}

/// Which configuration files there are: the one of the system, unless it is switched
/// off or named otherwise, and those of the user, unless one is named.
pub proof fn law_which_configuration_files_there_are(environment: GitEnvironment)
    ensures
        environment.no_system ==> system_config(environment).len() == 0,
        !environment.no_system ==> system_config(environment) == seq![
            match environment.system {
                Some(path) => components(path@),
                None => components(vstd::utf8::encode_utf8("/etc/gitconfig"@)),
            },
        ],
        environment.global matches Some(path) ==> user_config(environment) == seq![
            components(path@),
        ],
        environment.global is None && environment.home() is Some && environment.base() is Some
            ==> user_config(environment) == seq![
            environment.home()->0.push(vstd::utf8::encode_utf8(".gitconfig"@)),
            environment.base()->0.push(vstd::utf8::encode_utf8("git"@)).push(
                vstd::utf8::encode_utf8("config"@),
            ),
        ],
        environment.global is None && environment.home() is None && environment.base() is None
            ==> user_config(environment).len() == 0,
{
}

/// A Git directory marker names the directory behind its mark, without a line end.
/// Without the mark, or with nothing behind it, it is refused.
pub proof fn law_a_marker_names_its_directory(content: Seq<u8>, path: Seq<u8>)
    ensures
        ({
            let mark = vstd::utf8::encode_utf8("gitdir: "@);
            &&& !mark.is_prefix_of(content) ==> marker_target(content) == Err::<
                Seq<u8>,
                Seq<char>,
            >("invalid Git directory marker"@)
            &&& path.len() > 0 && path.last() != 10 && path.last() != 13 ==> {
                &&& marker_target(mark + path) == Ok::<Seq<u8>, Seq<char>>(path)
                &&& marker_target(mark + (path + seq![10u8])) == Ok::<Seq<u8>, Seq<char>>(path)
                &&& marker_target(mark + (path + seq![13u8, 10u8])) == Ok::<Seq<u8>, Seq<char>>(
                    path,
                )
            }
            &&& marker_target(mark) == Err::<Seq<u8>, Seq<char>>("empty Git directory marker"@)
            &&& marker_target(mark + seq![10u8]) == Err::<Seq<u8>, Seq<char>>(
                "empty Git directory marker"@,
            )
        }),
{
    let mark = vstd::utf8::encode_utf8("gitdir: "@);
    law_one_line_end_is_dropped(path);
    law_one_line_end_is_dropped(seq![]);
    lemma_behind(mark, path);
    lemma_behind(mark, path + seq![10u8]);
    lemma_behind(mark, path + seq![13u8, 10u8]);
    lemma_behind(mark, seq![10u8]);
    lemma_behind(mark, seq![]);
    assert(mark + Seq::<u8>::empty() =~= mark);
    assert(Seq::<u8>::empty() + seq![10u8] =~= seq![10u8]);
}

proof fn lemma_behind(prefix: Seq<u8>, rest: Seq<u8>)
    ensures
        prefix.is_prefix_of(prefix + rest),
        (prefix + rest).skip(prefix.len() as int) == rest,
{
    assert((prefix + rest).take(prefix.len() as int) =~= prefix);
    assert((prefix + rest).skip(prefix.len() as int) =~= rest);
}

/// Which answers of Git can be used: none where Git is missing, and otherwise those
/// with a status of success or of nothing found and no more than 16 MiB.
pub proof fn law_which_answers_can_be_used(status: i32, bytes: usize)
    ensures
        query_fault(GitOutcome::Missing) is None,
        query_fault(GitOutcome::Interrupted) == Some("Git source policy query was interrupted"@),
        query_fault(GitOutcome::TimedOut) == Some("Git source policy query timed out"@),
        ({
            let fault = query_fault(GitOutcome::Finished { status, bytes });
            &&& fault is None <==> (status == 0 || status == 1) && bytes <= 16777216
            &&& status != 0 && status != 1 ==> fault == Some(
                "Git could not read source policy configuration (exit "@
                    + crate::text::signed_decimal(status as int) + ")"@,
            )
            &&& (status == 0 || status == 1) && bytes > 16777216 ==> fault == Some(
                "Git source policy configuration exceeds 16 MiB"@,
            )
        }),
{
}

/// A configuration is loaded from what Git answered. Without an answer it is loaded
/// only where no exclusions are configured and the directory lies in no repository.
pub proof fn law_loading_takes_what_git_answered(
    directory: &PathName,
    answer: &Option<GitAnswer>,
    configured: bool,
    in_repository: bool,
    default: &Option<PathName>,
    loaded: Result<Configuration, String>,
)
    requires
        call_ensures(
            Configuration::load,
            (directory, answer, configured, in_repository, default),
            loaded,
        ),
    ensures
        loaded is Ok <==> answer is Some || (!configured && !in_repository),
        answer is None && configured ==> (loaded matches Err(message) && message@
            == "Git is required to validate configured source exclusions"@),
        answer is None && !configured && in_repository ==> (loaded matches Err(message) && message@
            == "Git is required to validate checkout source policy"@),
        loaded matches Ok(c) ==> {
            &&& c.directory@ == directory@
            &&& answer is None ==> c.fingerprint is None && optional_path(c.excludes)
                == optional_path(*default)
            &&& answer matches Some(a) ==> {
                &&& c.fingerprint matches Some(print) && print@ == blake3_digest(
                    configuration_bytes(a.listed@, optional_bytes(a.excludes)),
                )
                &&& optional_path(c.excludes) == excludes_choice(
                    directory@,
                    optional_bytes(a.excludes),
                    optional_path(*default),
                )
            }
        },
{
}

/// A configuration is verified exactly where Git answers what it answered before.
pub proof fn law_verifying_compares_what_git_answers(
    configuration: &Configuration,
    current: &Option<GitAnswer>,
    verified: Result<(), String>,
)
    requires
        call_ensures(Configuration::verify, (configuration, current), verified),
    ensures
        verified is Ok <==> match (configuration.fingerprint, current) {
            (None, None) => true,
            (Some(print), Some(a)) => print@ == blake3_digest(
                configuration_bytes(a.listed@, optional_bytes(a.excludes)),
            ),
            _ => false,
        },
        verified matches Err(message) ==> message@
            == "Git source policy changed during sync; retry sync"@,
{
}

/// What Git says is read as it stands: a marker, the common directory, the origins of a
/// listing and the exclude file; a listing without success is refused.
pub proof fn law_what_git_says_is_read(
    content: &Vec<u8>,
    target: Result<Vec<u8>, String>,
    git_dir: &PathName,
    common: &Option<Vec<u8>>,
    directory: Result<PathName, String>,
    answer: &[u8],
    excludes: Result<Option<Vec<u8>>, String>,
    listing: &Option<(i32, Vec<u8>)>,
    answered: Result<bool, String>,
    configured: bool,
    in_repository: bool,
    usable: Result<(), String>,
)
    requires
        call_ensures(read_marker, (content,), target),
        call_ensures(common_directory, (git_dir, common), directory),
        call_ensures(read_excludes, (answer,), excludes),
        call_ensures(has_answered, (listing,), answered),
        call_ensures(check_without_git, (configured, in_repository), usable),
    ensures
        match target {
            Ok(path) => marker_target(content@) == Ok::<Seq<u8>, Seq<char>>(path@),
            Err(message) => marker_target(content@) == Err::<Seq<u8>, Seq<char>>(message@),
        },
        common is None ==> (directory matches Ok(d) && d@ == git_dir@),
        common matches Some(bytes) ==> {
            &&& no_line_ending(bytes@).len() == 0 ==> (directory matches Err(message) && message@
                == "empty Git common directory"@)
            &&& no_line_ending(bytes@).len() > 0 ==> (directory matches Ok(d) && d@ == resolved(
                git_dir@,
                components(no_line_ending(bytes@)),
            ))
        },
        answer@.len() == 0 ==> (excludes matches Ok(None)),
        answer@.len() > 0 && answer@.last() == 0 ==> (excludes matches Ok(Some(path)) && path@
            == answer@.drop_last()),
        answer@.len() > 0 && answer@.last() != 0 ==> excludes is Err,
        listing is None ==> answered == Ok::<bool, String>(false),
        listing matches Some((status, bytes)) ==> if *status == 0 {
            answered == Ok::<bool, String>(true)
        } else {
            answered is Err
        },
        usable is Ok <==> !configured && !in_repository,
{
}

} // verus!
