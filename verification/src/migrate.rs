//! Selecting a backend adapter by name.
//!
//! The migration tool names its source and destination backends on the
//! command line.  An unknown name is a configuration error, found before any
//! directory or store is touched.

use crate::db::ConfigurationError;
use vstd::prelude::*;

verus! {

/// The compiled-in backend adapters, by command-line name.
#[derive(Clone, Copy, Debug, PartialEq, Eq, Structural)]
pub enum Backend {
    Heed,
    Sqlite,
    Rocks,
    Persy,
}

/// The adapter a backend name selects: exactly `heed`, `sqlite`, `rocks` or
/// `persy`.  Any other name is a configuration error; nothing is opened or
/// read to decide this.
pub fn backend_from_name(name: &String) -> (r: Result<Backend, ConfigurationError>)
    ensures
        name@ == "heed"@ ==> r == Ok::<Backend, ConfigurationError>(Backend::Heed),
        name@ == "sqlite"@ ==> r == Ok::<Backend, ConfigurationError>(Backend::Sqlite),
        name@ == "rocks"@ ==> r == Ok::<Backend, ConfigurationError>(Backend::Rocks),
        name@ == "persy"@ ==> r == Ok::<Backend, ConfigurationError>(Backend::Persy),
        name@ != "heed"@ && name@ != "sqlite"@ && name@ != "rocks"@ && name@ != "persy"@ ==> r
            == Err::<Backend, ConfigurationError>(ConfigurationError::UnknownBackend),
{
    proof {
        reveal_strlit("heed");
        reveal_strlit("sqlite");
        reveal_strlit("rocks");
        reveal_strlit("persy");
        assert("heed"@.len() == 4);
        assert("sqlite"@.len() == 6);
        assert("rocks"@.len() == 5);
        assert("persy"@.len() == 5);
        assert("rocks"@[0] == 'r' && "persy"@[0] == 'p');
    }
    let heed: String = "heed".to_owned();
    if *name == heed {
        return Ok(Backend::Heed);
    }
    let sqlite: String = "sqlite".to_owned();
    if *name == sqlite {
        return Ok(Backend::Sqlite);
    }
    let rocks: String = "rocks".to_owned();
    if *name == rocks {
        return Ok(Backend::Rocks);
    }
    let persy: String = "persy".to_owned();
    if *name == persy {
        return Ok(Backend::Persy);
    }
    Err(ConfigurationError::UnknownBackend)
}

} // verus!
