//! Which storage backend a server runs on. A data directory records the
//! backend it was made with, and is never reopened with the other one.
use crate::error::KvError;
use vstd::prelude::*;

verus! {

/// The storage backends.
#[derive(Clone, Copy, PartialEq, Eq, Structural, Debug)]
pub enum EngineType {
    Kvs,
    Sled,
}

/// The name under which a data directory records `e`.
pub open spec fn engine_name(e: EngineType) -> Seq<char> {
    match e {
        EngineType::Kvs => "Kvs"@,
        EngineType::Sled => "Sled"@,
    }
}

impl EngineType {
    /// The name under which a data directory records this backend.
    pub fn name(&self) -> (r: String)
        ensures
            r@ == engine_name(*self),
    {
        match self {
            EngineType::Kvs => "Kvs".to_string(),
            EngineType::Sled => "Sled".to_string(),
        }
    }
}

/// The backend that a data directory's record `contents` names;
/// `UnKnownEngineType` where it names none.
pub fn parse_engine_record(contents: &str) -> (r: Result<EngineType, KvError>)
    ensures
        contents@ == engine_name(EngineType::Kvs) ==> r == Ok::<EngineType, KvError>(EngineType::Kvs),
        contents@ == engine_name(EngineType::Sled) ==> r == Ok::<EngineType, KvError>(EngineType::Sled),
        contents@ != engine_name(EngineType::Kvs) && contents@ != engine_name(EngineType::Sled)
            ==> r matches Err(KvError::UnKnownEngineType),
{
    proof {
        reveal_strlit("Kvs");
        reveal_strlit("Sled");
        assert("Kvs"@.len() != "Sled"@.len());
    }
    let text = contents.to_string();
    if text == EngineType::Kvs.name() {
        Ok(EngineType::Kvs)
    } else if text == EngineType::Sled.name() {
        Ok(EngineType::Sled)
    } else {
        Err(KvError::UnKnownEngineType)
    }
}

/// The backend to start, given the one asked for and the one that the data
/// directory recorded: the one asked for where it agrees with the record or
/// there is none, the recorded one where none is asked for, the log engine
/// where there is neither; `UnKnownEngineType` where the two differ.
pub fn get_engine(engine: Option<EngineType>, prev_engine: Option<EngineType>) -> (r: Result<
    EngineType,
    KvError,
>)
    ensures
        engine is None && prev_engine is None ==> r == Ok::<EngineType, KvError>(EngineType::Kvs),
        engine is None && prev_engine is Some ==> r == Ok::<EngineType, KvError>(prev_engine->Some_0),
        engine is Some && (prev_engine is None || prev_engine == engine) ==> r == Ok::<
            EngineType,
            KvError,
        >(engine->Some_0),
        engine is Some && prev_engine is Some && prev_engine != engine ==> r matches Err(
            KvError::UnKnownEngineType,
        ),
{
    match engine {
        None => match prev_engine {
            None => Ok(EngineType::Kvs),
            Some(p) => Ok(p),
        },
        Some(e) => match prev_engine {
            None => Ok(e),
            Some(p) => if p == e {
                Ok(e)
            } else {
                Err(KvError::UnKnownEngineType)
            },
        },
    }
}

} // verus!
