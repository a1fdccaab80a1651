use vstd::prelude::*;

verus! {

#[derive(PartialEq, Eq, Hash, Debug)]
pub enum ContactAddressType {
    Npub,
    Nip05,
    LightningNodePubkey,
    Other(String),
}

impl Clone for ContactAddressType {
    fn clone(&self) -> (r: Self)
        ensures
            r == *self,
    {
        match self {
            ContactAddressType::Npub => ContactAddressType::Npub,
            ContactAddressType::Nip05 => ContactAddressType::Nip05,
            ContactAddressType::LightningNodePubkey => ContactAddressType::LightningNodePubkey,
            ContactAddressType::Other(s) => ContactAddressType::Other(s.clone()),
        }
    }
}

#[derive(PartialEq, Eq, Debug)]
pub struct ContactAddress {
    pub address_type: ContactAddressType,
    pub value: String,
}

impl Clone for ContactAddress {
    fn clone(&self) -> (r: Self)
        ensures
            r == *self,
    {
        ContactAddress { address_type: self.address_type.clone(), value: self.value.clone() }
    }
}

/// The profile fields of a relay directory entry that a contact takes over.
#[derive(Clone, PartialEq, Eq, Debug, Default)]
pub struct NostrMetadata {
    pub name: Option<String>,
    pub display_name: Option<String>,
    pub nip05: Option<String>,
}

#[derive(PartialEq, Eq, Debug)]
pub struct WalletkaContact {
    pub id: Option<String>,
    pub display_name: String,
    pub addresses: Vec<ContactAddress>,
}

impl WalletkaContact {
    /// A contact imported from a relay contact list: named by its alias, or
    /// else by its public key, and reachable at that key.
    pub fn from_nostr_contact(npub: String, alias: Option<String>) -> (r: Self)
        ensures
            r.id is None,
            r.display_name == (if alias is Some {
                alias.unwrap()
            } else {
                npub
            }),
            r.addresses@ == seq![ContactAddress { address_type: ContactAddressType::Npub, value: npub }],
    {
        let display_name = match alias {
            Some(a) => a,
            None => npub.clone(),
        };
        let mut addresses: Vec<ContactAddress> = Vec::new();
        addresses.push(ContactAddress { address_type: ContactAddressType::Npub, value: npub });
        proof {
            assert(addresses@ =~= seq![ContactAddress { address_type: ContactAddressType::Npub, value: npub }]);
        }
        WalletkaContact { id: None, display_name, addresses }
    }

    /// Takes over a directory profile: the display name wins over the name,
    /// and a NIP-05 identifier becomes one more address.
    pub fn apply_nostr_metadata(&mut self, metadata: NostrMetadata)
        ensures
            final(self).id == old(self).id,
            final(self).display_name == (if metadata.display_name is Some {
                metadata.display_name.unwrap()
            } else if metadata.name is Some {
                metadata.name.unwrap()
            } else {
                old(self).display_name
            }),
            metadata.nip05 is Some ==> final(self).addresses@ == old(self).addresses@.push(
                ContactAddress { address_type: ContactAddressType::Nip05, value: metadata.nip05.unwrap() },
            ),
            metadata.nip05 is None ==> final(self).addresses@ == old(self).addresses@,
    {
        if let Some(name) = metadata.name {
            self.display_name = name;
        }
        if let Some(name) = metadata.display_name {
            self.display_name = name;
        }
        if let Some(nip05) = metadata.nip05 {
            self.addresses.push(ContactAddress { address_type: ContactAddressType::Nip05, value: nip05 });
        }
    }
}

} // verus!
