//! Unix paths as texts: joining, components, file names, and the user's home.
use crate::error;
use crate::error::{ErrorKind, TransferError};
use crate::text;
use crate::text::{chars_of, last_position_of, spells, split_on, starts_with, text_of};
use vstd::prelude::*;
use vstd::slice::slice_subrange;

verus! {

/// A path that starts at the root.
pub open spec fn is_absolute(path: Seq<char>) -> bool {
    path.len() > 0 && path[0] == '/'
}

pub fn absolute(path: &[char]) -> (r: bool)
    ensures
        r == is_absolute(path@),
{
    path.len() > 0 && path[0] == '/'
}

/// A path taken relative to a base: an absolute path replaces the base, any other is put behind
/// it with one separator in between.
pub open spec fn join(base: Seq<char>, path: Seq<char>) -> Seq<char> {
    if is_absolute(path) {
        path
    } else if base.len() == 0 || base.last() == '/' {
        base + path
    } else {
        base.push('/') + path
    }
}

pub fn joined(base: &str, path: &str) -> (r: String)
    ensures
        r@ == join(base@, path@),
{
    let relative = chars_of(path);
    if absolute(&relative) {
        return path.to_owned();
    }
    let start = chars_of(base);
    let mut whole = base.to_owned();
    if start.len() > 0 && start[start.len() - 1] != '/' {
        whole.push('/');
    }
    whole.append(path);
    whole
}

// ---------------------------------------------------------------------------------------------
// Components

/// A piece between separators that names nothing: it is empty or `.`.
pub open spec fn is_idle(piece: Seq<char>) -> bool {
    piece.len() == 0 || piece == "."@
}

/// The last piece that names something.
pub open spec fn last_named(pieces: Seq<Seq<char>>) -> Option<Seq<char>>
    decreases pieces.len(),
{
    if pieces.len() == 0 {
        None
    } else if is_idle(pieces.last()) {
        last_named(pieces.drop_last())
    } else {
        Some(pieces.last())
    }
}

/// The final component of a path, unless the path ends at the root, at `.` or at `..`.
pub open spec fn file_name(path: Seq<char>) -> Option<Seq<char>> {
    match last_named(text::split(path, '/')) {
        Some(name) => if name == ".."@ {
            None
        } else {
            Some(name)
        },
        None => None,
    }
}

/// The place of the dot that divides a name into stem and extension: the last dot, unless the name
/// starts with it.
pub open spec fn extension_dot(name: Seq<char>) -> Option<int> {
    match text::last_index(name, '.') {
        Some(i) => if i > 0 {
            Some(i)
        } else {
            None
        },
        None => None,
    }
}

/// A file name without its extension.
pub open spec fn name_stem(name: Seq<char>) -> Seq<char> {
    match extension_dot(name) {
        Some(i) => name.take(i),
        None => name,
    }
}

/// The extension of a file name, with its dot.
pub open spec fn name_extension(name: Seq<char>) -> Seq<char> {
    match extension_dot(name) {
        Some(i) => name.skip(i),
        None => seq![],
    }
}

/// The final component of a path.
pub fn file_name_of(path: &[char]) -> (r: Option<Vec<char>>)
    ensures
        match r {
            Some(name) => file_name(path@) == Some(name@),
            None => file_name(path@) is None,
        },
{
    let mut pieces = split_on(path, '/');
    let ghost all = text::split(path@, '/');
    assert(all.take(pieces@.len() as int) =~= all);
    loop
        invariant
            pieces@.len() <= all.len(),
            all == text::split(path@, '/'),
            forall|i: int| 0 <= i < pieces@.len() ==> (#[trigger] pieces@[i])@ == all[i],
            last_named(all) == last_named(all.take(pieces@.len() as int)),
        decreases pieces@.len(),
    {
        let ghost before = pieces@;
        match pieces.pop() {
            None => {
                return None;
            },
            Some(piece) => {
                assert(before[before.len() - 1]@ == all[before.len() - 1]);
                assert(all.take(before.len() as int).drop_last() =~= all.take(
                    pieces@.len() as int,
                ));
                if piece.len() == 0 || spells(&piece, ".") {
                    continue;
                }
                if spells(&piece, "..") {
                    return None;
                }
                return Some(piece);
            },
        }
    }
}

/// Divides a name into its stem and its extension with the dot.
pub fn stem_and_extension(name: &[char]) -> (r: (&[char], &[char]))
    ensures
        r.0@ == name_stem(name@),
        r.1@ == name_extension(name@),
{
    match last_position_of(name, '.') {
        Some(i) => if i > 0 {
            let stem = slice_subrange(name, 0, i);
            let extension = slice_subrange(name, i, name.len());
            assert(stem@ =~= name@.take(i as int));
            assert(extension@ =~= name@.skip(i as int));
            return (stem, extension);
        },
        None => {},
    }
    let none = slice_subrange(name, 0, 0);
    assert(none@ =~= seq![]);
    (name, none)
}

/// Whether a path climbs: one of its components is `..`.
pub open spec fn climbs(path: Seq<char>) -> bool {
    text::split(path, '/').contains(".."@)
}

/// A path of an archive entry that stays below the directory it is unpacked in.
pub open spec fn is_safe_entry(path: Seq<char>) -> bool {
    !is_absolute(path) && !climbs(path)
}

/// Refuses an archive entry that would leave the directory it is unpacked in.
pub fn ensure_safe_entry_path(path: &str) -> (r: Result<(), TransferError>)
    ensures
        error::unit_result(r) == if is_safe_entry(path@) {
            Ok::<(), error::Fault>(())
        } else {
            Err(error::fault_about(ErrorKind::UnsafeEntryPath, path@))
        },
{
    let chars = chars_of(path);
    if absolute(&chars) {
        return Err(TransferError::about(ErrorKind::UnsafeEntryPath, path.to_owned()));
    }
    let pieces = split_on(&chars, '/');
    let ghost all = text::split(path@, '/');
    let mut i: usize = 0;
    while i < pieces.len()
        invariant
            i <= pieces@.len(),
            pieces@.len() == all.len(),
            all == text::split(path@, '/'),
            forall|j: int| 0 <= j < pieces@.len() ==> (#[trigger] pieces@[j])@ == all[j],
            forall|j: int| 0 <= j < i ==> #[trigger] all[j] != ".."@,
        decreases pieces@.len() - i,
    {
        if spells(&pieces[i], "..") {
            assert(all[i as int] == ".."@);
            return Err(TransferError::about(ErrorKind::UnsafeEntryPath, path.to_owned()));
        }
        i += 1;
    }
    Ok(())
}

// ---------------------------------------------------------------------------------------------
// Home

/// A path with a leading `~` replaced by the home directory.
pub open spec fn expanded(value: Seq<char>, home: Option<Seq<char>>) -> Result<
    Seq<char>,
    error::Fault,
> {
    if value == "~"@ {
        match home {
            Some(directory) => Ok(directory),
            None => Err(error::fault(ErrorKind::HomeNotSet)),
        }
    } else if text::begins_with(value, "~/"@) {
        match home {
            Some(directory) => Ok(join(directory, value.skip(2))),
            None => Err(error::fault(ErrorKind::HomeNotSet)),
        }
    } else {
        Ok(value)
    }
}

/// The model of an optional text.
pub open spec fn text_option(value: Option<&str>) -> Option<Seq<char>> {
    match value {
        Some(text) => Some(text@),
        None => None,
    }
}

/// The home directory, which must be known.
pub open spec fn home_of(home: Option<Seq<char>>) -> Result<Seq<char>, error::Fault> {
    match home {
        Some(directory) => Ok(directory),
        None => Err(error::fault(ErrorKind::HomeNotSet)),
    }
}

/// The home directory out of what the environment says.
pub fn home_dir(home: Option<&str>) -> (r: Result<String, TransferError>)
    ensures
        error::text_result(r) == home_of(text_option(home)),
{
    match home {
        Some(directory) => Ok(directory.to_owned()),
        None => Err(TransferError::new(ErrorKind::HomeNotSet)),
    }
}

/// Replaces a leading `~` by the home directory.
pub fn expand_home(value: &str, home: Option<&str>) -> (r: Result<String, TransferError>)
    ensures
        error::text_result(r) == expanded(value@, text_option(home)),
{
    let chars = chars_of(value);
    if spells(&chars, "~") {
        return home_dir(home);
    }
    let prefix = chars_of("~/");
    if starts_with(&chars, &prefix) {
        proof {
            reveal_strlit("~/");
        }
        let relative = text_of(slice_subrange(&chars, 2, chars.len()));
        assert(relative@ =~= value@.skip(2));
        return match home {
            Some(directory) => Ok(joined(directory, relative.as_str())),
            None => Err(TransferError::new(ErrorKind::HomeNotSet)),
        };
    }
    Ok(value.to_owned())
}

/// The same where an unknown home leaves the path as it is.
pub open spec fn expanded_if_known(value: Seq<char>, home: Option<Seq<char>>) -> Seq<char> {
    match expanded(value, home) {
        Ok(path) => path,
        Err(_) => value,
    }
}

pub fn expand_home_if_known(value: &str, home: Option<&str>) -> (r: String)
    ensures
        r@ == expanded_if_known(value@, text_option(home)),
{
    match expand_home(value, home) {
        Ok(path) => path,
        Err(_) => value.to_owned(),
    }
}

// ---------------------------------------------------------------------------------------------
// Laws

/// A name without separators that is neither empty nor `.` nor `..` is the final component of
/// every path that ends in it.
pub proof fn law_joined_name_is_the_file_name(directory: Seq<char>, name: Seq<char>)
    requires
        name.len() > 0,
        !name.contains('/'),
        name != "."@,
        name != ".."@,
    ensures
        file_name(name) == Some(name),
        file_name(join(directory, name)) == Some(name),
{
    text::lemma_split_single(name, '/');
    assert(text::split(name, '/').last() == name);
    assert(name.contains(name[0]));
    lemma_split_last(directory, name);
    if directory.len() > 0 && directory.last() == '/' {
        assert(directory =~= directory.drop_last().push('/'));
        lemma_split_last(directory.drop_last(), name);
    } else if directory.len() == 0 {
        assert(directory + name =~= name);
    }
}

/// The last piece of a text that ends in a separator and a name is the name.
pub proof fn lemma_split_last(head: Seq<char>, name: Seq<char>)
    requires
        !name.contains('/'),
    ensures
        text::split(head.push('/') + name, '/').len() > 0,
        text::split(head.push('/') + name, '/').last() == name,
    decreases head.len(),
{
    let s = head.push('/') + name;
    text::lemma_index_from(s, '/', 0);
    assert(s[head.len() as int] == '/');
    let i = text::first_index(s, '/')->0;
    if i < head.len() {
        assert(s.skip(i + 1) =~= head.skip(i + 1).push('/') + name);
        lemma_split_last(head.skip(i + 1), name);
    } else {
        assert(i == head.len());
        assert(s.skip(i + 1) =~= name);
        text::lemma_split_single(name, '/');
    }
}

/// Different relative paths stay different when they are joined to the same base.
pub proof fn law_join_is_injective(base: Seq<char>, a: Seq<char>, b: Seq<char>)
    requires
        !is_absolute(a),
        !is_absolute(b),
        join(base, a) == join(base, b),
    ensures
        a == b,
{
    let start = if base.len() == 0 || base.last() == '/' {
        base
    } else {
        base.push('/')
    };
    assert(a =~= (start + a).skip(start.len() as int));
    assert(b =~= (start + b).skip(start.len() as int));
}

/// A relative path is put behind its base, with one slash in between; an absolute one stands for
/// itself.
pub proof fn law_relative_paths_go_below_their_base(base: Seq<char>, path: Seq<char>)
    ensures
        path.len() > 0 && path[0] == '/' ==> join(base, path) == path,
        (path.len() == 0 || path[0] != '/') && base.len() > 0 && base.last() != '/' ==> join(
            base,
            path,
        ) == base + "/"@ + path,
        (path.len() == 0 || path[0] != '/') && base.len() > 0 && base.last() == '/' ==> join(
            base,
            path,
        ) == base + path,
        (path.len() == 0 || path[0] != '/') && base.len() == 0 ==> join(base, path) == path,
{
    reveal_strlit("/");
    assert(base.push('/') + path =~= base + "/"@ + path);
    if base.len() == 0 {
        assert(base + path =~= path);
    }
}

/// The final component of a path is not changed by slashes or dots behind it, and a path that ends
/// by climbing has none.
pub proof fn law_final_component_stays_behind_slashes(path: Seq<char>)
    ensures
        file_name(path + "/"@) == file_name(path),
        file_name(path + "/."@) == file_name(path),
        file_name(path + "/.."@) is None,
{
    reveal_strlit("/");
    reveal_strlit("/.");
    reveal_strlit("/..");
    reveal_strlit(".");
    reveal_strlit("..");
    let pieces = text::split(path, '/');
    let none: Seq<char> = seq![];
    text::law_last_piece_is_split_off(path, '/', none);
    text::law_last_piece_is_split_off(path, '/', "."@);
    text::law_last_piece_is_split_off(path, '/', ".."@);
    assert(path.push('/') + none =~= path + "/"@);
    assert(path.push('/') + "."@ =~= path + "/."@);
    assert(path.push('/') + ".."@ =~= path + "/.."@);
    assert(pieces.push(none).drop_last() =~= pieces);
    assert(pieces.push("."@).drop_last() =~= pieces);
    assert(".."@.len() == 2 && "."@.len() == 1);
}

/// A name is divided at its last dot, which belongs to the extension; a name without a dot, or with
/// one at its front alone, has no extension.
pub proof fn law_names_are_divided_at_their_last_dot(stem: Seq<char>, extension: Seq<char>)
    requires
        !extension.contains('.'),
    ensures
        stem.len() > 0 ==> name_stem(stem + "."@ + extension) == stem && name_extension(
            stem + "."@ + extension,
        ) == "."@ + extension,
        name_stem(extension) == extension,
        name_extension(extension).len() == 0,
        name_stem("."@ + extension) == "."@ + extension,
        name_extension("."@ + extension).len() == 0,
{
    reveal_strlit(".");
    let name = stem + "."@ + extension;
    let dot = stem.len() as int;
    assert(name[dot] == '.');
    assert forall|j: int| dot < j < name.len() implies #[trigger] name[j] != '.' by {
        assert(name[j] == extension[j - dot - 1]);
        assert(extension.contains(extension[j - dot - 1]));
    }
    text::lemma_last_index_is(name, '.', dot);
    assert(name.take(dot) =~= stem);
    assert(name.skip(dot) =~= "."@ + extension);
    text::lemma_last_index(extension, '.');
    if text::last_index(extension, '.') is Some {
        assert(extension.contains(extension[text::last_index(extension, '.')->0]));
    }
    let hidden = "."@ + extension;
    assert(hidden[0] == '.');
    assert forall|j: int| 0 < j < hidden.len() implies #[trigger] hidden[j] != '.' by {
        assert(hidden[j] == extension[j - 1]);
        assert(extension.contains(extension[j - 1]));
    }
    text::lemma_last_index_is(hidden, '.', 0);
}

/// An entry of an archive is safe exactly where its path does not begin with a slash, and none of
/// its components is `..`.
pub proof fn law_safe_entries_stay_below(components: Seq<Seq<char>>)
    requires
        components.len() > 0,
        forall|i: int| 0 <= i < components.len() ==> !(#[trigger] components[i]).contains('/'),
    ensures
        is_safe_entry(text::joined_by(components, '/')) <==> !(components.len() > 1
            && components[0].len() == 0) && forall|i: int|
            0 <= i < components.len() ==> #[trigger] components[i] != ".."@,
{
    let path = text::joined_by(components, '/');
    text::law_joining_is_undone_by_splitting(components, '/');
    if components.len() == 1 {
        if path.len() > 0 {
            assert(components[0].contains(components[0][0]));
        }
    } else {
        if components[0].len() > 0 {
            assert(path[0] == components[0][0]);
            assert(components[0].contains(components[0][0]));
        } else {
            assert(path[0] == '/');
        }
    }
    if forall|i: int| 0 <= i < components.len() ==> #[trigger] components[i] != ".."@ {
        assert(!climbs(path));
    } else {
        let i = choose|i: int| 0 <= i < components.len() && #[trigger] components[i] == ".."@;
        assert(text::split(path, '/').contains(components[i]));
    }
}

/// A tilde that stands alone, or before a slash, means the home directory, which must then be known;
/// every other text means itself.
pub proof fn law_tilde_means_home(rest: Seq<char>, value: Seq<char>, home: Seq<char>)
    ensures
        expanded("~"@, Some(home)) == Ok::<Seq<char>, error::Fault>(home),
        expanded("~/"@ + rest, Some(home)) == Ok::<Seq<char>, error::Fault>(join(home, rest)),
        expanded("~"@, None) == Err::<Seq<char>, error::Fault>(error::fault(ErrorKind::HomeNotSet)),
        expanded("~/"@ + rest, None) == Err::<Seq<char>, error::Fault>(
            error::fault(ErrorKind::HomeNotSet),
        ),
        value.len() == 0 || value[0] != '~' || (value.len() > 1 && value[1] != '/') ==> expanded(
            value,
            Some(home),
        ) == Ok::<Seq<char>, error::Fault>(value) && expanded(value, None) == Ok::<
            Seq<char>,
            error::Fault,
        >(value),
        expanded_if_known("~/"@ + rest, None) == "~/"@ + rest,
        expanded_if_known("~/"@ + rest, Some(home)) == join(home, rest),
        value.len() == 0 || value[0] != '~' ==> expanded_if_known(value, Some(home)) == value
            && expanded_if_known(value, None) == value,
        home_of(Some(home)) == Ok::<Seq<char>, error::Fault>(home),
        home_of(None) == Err::<Seq<char>, error::Fault>(error::fault(ErrorKind::HomeNotSet)),
{
    reveal_strlit("~");
    reveal_strlit("~/");
    let below = "~/"@ + rest;
    assert("~"@.len() == 1);
    assert(below.subrange(0, 2) =~= "~/"@);
    assert(below.skip(2) =~= rest);
    if text::begins_with(value, "~/"@) {
        assert(value.subrange(0, 2)[0] == "~/"@[0]);
        assert(value.subrange(0, 2)[1] == "~/"@[1]);
    }
}

/// A text that is given is the text, and one that is missing is missing.
pub proof fn law_given_texts_are_taken(value: &str)
    ensures
        text_option(Some(value)) == Some(value@),
        text_option(None) is None,
{
}

/// A tilde alone is home where that is known, and a tilde before anything but a slash is a character
/// like any other.
pub proof fn law_other_tildes_are_kept(rest: Seq<char>, home: Option<Seq<char>>)
    requires
        rest.len() > 0,
        rest[0] != '/',
    ensures
        expanded("~"@ + rest, home) == Ok::<Seq<char>, error::Fault>("~"@ + rest),
        expanded_if_known("~"@ + rest, home) == "~"@ + rest,
        expanded_if_known("~"@, home) == match home {
            Some(directory) => directory,
            None => "~"@,
        },
{
    reveal_strlit("~");
    reveal_strlit("~/");
    let value = "~"@ + rest;
    assert(value[1] == rest[0]);
    assert(value.len() > 1);
    if text::begins_with(value, "~/"@) {
        assert(value.subrange(0, 2)[1] == "~/"@[1]);
    }
}

} // verus!
