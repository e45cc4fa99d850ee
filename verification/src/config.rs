//! Names of configuration files.

use vstd::prelude::*;
use vstd::string::StringSliceAdditionalSpecFns;

verus! {

/// The name without one dot at its end.
pub open spec fn unterminated(name: Seq<u8>) -> Seq<u8> {
    if name.len() > 0 && name.last() == 0x2e {
        name.drop_last()
    } else {
        name
    }
}

/// Whether `name` ends in the part `toml`: after a dot, or as the whole
/// name.
pub open spec fn ends_in_toml(name: Seq<u8>) -> bool {
    &&& name.len() >= 4
    &&& name.subrange(name.len() - 4, name.len() as int) == seq![0x74u8, 0x6f, 0x6d, 0x6c]
    &&& (name.len() == 4 || name[name.len() - 5] == 0x2e)
}

/// Whether `file` names a configuration file: the last of its parts between
/// dots is `toml`, where one dot at the very end ends the last part and
/// starts no new one.
pub fn is_toml_file(file: &str) -> (ok: bool)
    ensures
        ok == ends_in_toml(unterminated(file.spec_bytes())),
{
    let name = file.as_bytes();
    let mut len = name.len();
    if len > 0 && name[len - 1] == 0x2e {
        len = len - 1;
    }
    proof {
        assert(unterminated(name@) =~= name@.subrange(0, len as int));
    }
    if len < 4 {
        return false;
    }
    let ghost part = name@.subrange(0, len as int);
    let found = name[len - 4] == 0x74 && name[len - 3] == 0x6f && name[len - 2] == 0x6d && name[len
        - 1] == 0x6c;
    proof {
        let tail = part.subrange(part.len() - 4, part.len() as int);
        assert(tail[0] == name@[len - 4] && tail[1] == name@[len - 3] && tail[2] == name@[len
            - 2] && tail[3] == name@[len - 1]);
        if found {
            assert(tail =~= seq![0x74u8, 0x6f, 0x6d, 0x6c]);
        }
    }
    if !found {
        return false;
    }
    len == 4 || name[len - 5] == 0x2e
}

} // verus!
