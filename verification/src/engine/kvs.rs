//! The log engine as a storage backend: the trait operations hand straight
//! to the verified store and carry its contracts.

use vstd::prelude::*;

use crate::engine::KvsEngine;
use crate::error::KvsError;
use crate::kv::{CommandModel, KvStore};

verus! {

impl KvsEngine for KvStore {
    fn set(&mut self, key: String, value: String) -> (r: Result<(), KvsError>)
        ensures
            r is Ok,
            old(self).wf() ==> {
                &&& final(self).wf()
                &&& final(self).log() == old(self).log().push(CommandModel::Put {
                    key: key@,
                    value: value@,
                })
                &&& final(self).contents() == old(self).contents().insert(key@, value@)
            },
    {
        KvStore::set(self, key, value)
    }

    fn get(&self, key: String) -> (r: Result<Option<String>, KvsError>)
        ensures
            self.wf() ==> {
                &&& r is Ok
                &&& (r->Ok_0 is Some <==> self.contents().dom().contains(key@))
                &&& (r->Ok_0 is Some ==> r->Ok_0->Some_0@ == self.contents()[key@])
            },
    {
        KvStore::get(self, key)
    }

    fn remove(&mut self, key: String) -> (r: Result<(), KvsError>)
        ensures
            old(self).wf() ==> {
                &&& final(self).wf()
                &&& (r is Ok <==> old(self).contents().dom().contains(key@))
                &&& (r is Err ==> r->Err_0.kind is KeyNotFound && *final(self) == *old(self))
                &&& (r is Ok ==> final(self).log() == old(self).log().push(CommandModel::Rm {
                    key: key@,
                }) && final(self).contents() == old(self).contents().remove(key@))
            },
    {
        KvStore::remove(self, key)
    }
}

} // verus!
