//! The names of the files that the store keeps.

use uuid::Uuid;
use vstd::prelude::*;
use vstd::string::StringExecFns;

verus! {

/// `String::push` of the standard library: the string grows by the one
/// character at its end.
pub assume_specification[ String::push ](text: &mut String, c: char)
    ensures
        final(text)@ == old(text)@.push(c),
;

/// A fresh name for a file: `Uuid::new_v4` of the `uuid` crate, written as
/// text. The identifier is random, so all that is claimed of the name is its
/// length: `uuid` writes an identifier as 32 hexadecimal digits in five groups
/// with four hyphens between them. The call panics where the operating system
/// gives out no random bytes.
#[verifier::external_body]
pub(crate) fn fresh_name() -> (name: String)
    ensures
        name@.len() == 36,
{
    Uuid::new_v4().to_string()
}

/// The file name for a schema called `name`: the name with an underscore in
/// place of each colon.
pub open spec fn schema_file_text(name: Seq<char>) -> Seq<char> {
    name.map_values(
        |c: char|
            if c == ':' {
                '_'
            } else {
                c
            },
    )
}

/// The name of the log file of the schema called `name`, which is the
/// module-qualified name of the schema's type.
pub fn schema_file_name(name: &str) -> (file: String)
    ensures
        file@ == schema_file_text(name@),
{
    let mut file = String::new();
    for c in iter: name.chars()
        invariant
            iter.seq() == name@,
            file@ == schema_file_text(name@.take(iter.index())),
    {
        proof {
            assert(name@.take(iter.index() + 1) =~= name@.take(iter.index()).push(c));
            assert(schema_file_text(name@.take(iter.index()).push(c)) =~= schema_file_text(
                name@.take(iter.index()),
            ).push(
                if c == ':' {
                    '_'
                } else {
                    c
                },
            ));
        }
        if c == ':' {
            file.push('_');
        } else {
            file.push(c);
        }
    }
    proof {
        assert(name@.take(name@.len() as int) =~= name@);
    }
    file
}

/// The path of the file called `name` in the directory `folder`.
pub open spec fn path_text(folder: Seq<char>, name: Seq<char>) -> Seq<char> {
    folder + seq!['/'] + name
}

/// The path of the file called `name` in the directory `folder`.
pub fn path_in(folder: &str, name: &str) -> (path: String)
    ensures
        path@ == path_text(folder@, name@),
{
    let mut path = String::from_str(folder);
    path.push('/');
    path.append(name);
    proof {
        assert(path@ =~= path_text(folder@, name@));
    }
    path
}

} // verus!
