use vstd::prelude::*;

verus! {

/// The chain a wallet runs on.
#[derive(Clone, Copy, PartialEq, Eq, Structural, Debug)]
pub enum Network {
    Bitcoin,
    Testnet,
    Signet,
    Regtest,
}

pub open spec fn network_name(n: Network) -> Seq<char> {
    match n {
        Network::Bitcoin => "bitcoin"@,
        Network::Testnet => "testnet"@,
        Network::Signet => "signet"@,
        Network::Regtest => "regtest"@,
    }
}

impl Network {
    /// The network's name, as used for default wallet ids and namespaces.
    pub fn name(&self) -> (r: String)
        ensures
            r@ == network_name(*self),
    {
        match self {
            Network::Bitcoin => String::from_str("bitcoin"),
            Network::Testnet => String::from_str("testnet"),
            Network::Signet => String::from_str("signet"),
            Network::Regtest => String::from_str("regtest"),
        }
    }
}

/// Where the record store keeps its data.
#[derive(PartialEq, Eq, Debug)]
pub enum DatabaseStore {
    Local(String),
    Memory,
    Remote(String),
}

impl Clone for DatabaseStore {
    fn clone(&self) -> (r: Self)
        ensures
            r == *self,
    {
        match self {
            DatabaseStore::Local(p) => DatabaseStore::Local(p.clone()),
            DatabaseStore::Memory => DatabaseStore::Memory,
            DatabaseStore::Remote(u) => DatabaseStore::Remote(u.clone()),
        }
    }
}

/// The configuration a wallet is built from.
#[derive(PartialEq, Eq, Debug)]
pub struct WalletkaBuilder {
    pub wallet_id: Option<String>,
    pub database_store: DatabaseStore,
    pub network: Network,
    pub mnemonic_words: Option<String>,
    pub passphrase: Option<String>,
    pub data_path: String,
    pub nostr_relay_urls: Vec<String>,
    pub electrum_url: Option<String>,
    pub esplora_url: Option<String>,
    pub rgb_transport_url: Option<String>,
}

impl Default for WalletkaBuilder {
    /// A regtest wallet in memory, with data under ".data".
    fn default() -> (r: Self)
        ensures
            r.wallet_id is Some && r.wallet_id.unwrap()@ == network_name(Network::Regtest),
            r.database_store == DatabaseStore::Memory,
            r.network == Network::Regtest,
            r.mnemonic_words is None,
            r.passphrase is None,
            r.data_path@ == ".data"@,
            r.nostr_relay_urls@.len() == 0,
            r.electrum_url is None,
            r.esplora_url is None,
            r.rgb_transport_url is None,
    {
        WalletkaBuilder {
            wallet_id: Some(Network::Regtest.name()),
            database_store: DatabaseStore::Memory,
            network: Network::Regtest,
            mnemonic_words: None,
            passphrase: None,
            data_path: String::from_str(".data"),
            nostr_relay_urls: Vec::new(),
            electrum_url: None,
            esplora_url: None,
            rgb_transport_url: None,
        }
    }
}

impl WalletkaBuilder {
    /// A configuration; without a wallet id the network's name is used.
    pub fn new(
        wallet_id: Option<String>,
        database_store: DatabaseStore,
        network: Network,
        mnemonic_words: String,
        passphrase: Option<String>,
        data_path: String,
        nostr_relay_urls: Vec<String>,
        electrum_url: Option<String>,
        esplora_url: Option<String>,
        rgb_transport_url: Option<String>,
    ) -> (r: Self)
        ensures
            r.wallet_id is Some,
            wallet_id is Some ==> r.wallet_id == wallet_id,
            wallet_id is None ==> r.wallet_id.unwrap()@ == network_name(network),
            r.database_store == database_store,
            r.network == network,
            r.mnemonic_words == Some(mnemonic_words),
            r.passphrase == passphrase,
            r.data_path == data_path,
            r.nostr_relay_urls == nostr_relay_urls,
            r.electrum_url == electrum_url,
            r.esplora_url == esplora_url,
            r.rgb_transport_url == rgb_transport_url,
    {
        let wallet_id = match wallet_id {
            Some(id) => id,
            None => network.name(),
        };
        WalletkaBuilder {
            wallet_id: Some(wallet_id),
            database_store,
            network,
            mnemonic_words: Some(mnemonic_words),
            passphrase,
            data_path,
            nostr_relay_urls,
            electrum_url,
            esplora_url,
            rgb_transport_url,
        }
    }

    /// Sets the wallet id of the data store.
    pub fn set_wallet_id(&mut self, id: String)
        ensures
            *final(self) == (WalletkaBuilder { wallet_id: Some(id), ..*old(self) }),
    {
        self.wallet_id = Some(id);
    }

    pub fn set_memory_db_store(&mut self)
        ensures
            *final(self) == (WalletkaBuilder { database_store: DatabaseStore::Memory, ..*old(self) }),
    {
        self.database_store = DatabaseStore::Memory;
    }

    pub fn get_db_store(&self) -> (r: DatabaseStore)
        ensures
            r == self.database_store,
    {
        self.database_store.clone()
    }

    pub fn set_local_db_store(&mut self, data_path: String)
        ensures
            *final(self) == (WalletkaBuilder {
                database_store: DatabaseStore::Local(data_path),
                ..*old(self)
            }),
    {
        self.database_store = DatabaseStore::Local(data_path);
    }

    pub fn set_network(&mut self, network: Network)
        ensures
            *final(self) == (WalletkaBuilder { network, ..*old(self) }),
    {
        self.network = network;
    }

    pub fn set_mnemonic(&mut self, mnemonic_words: String, passphrase: Option<String>)
        ensures
            *final(self) == (WalletkaBuilder {
                mnemonic_words: Some(mnemonic_words),
                passphrase,
                ..*old(self)
            }),
    {
        self.mnemonic_words = Some(mnemonic_words);
        self.passphrase = passphrase;
    }

    pub fn set_nostr_relays(&mut self, nostr_relay_urls: Vec<String>)
        ensures
            *final(self) == (WalletkaBuilder { nostr_relay_urls, ..*old(self) }),
    {
        self.nostr_relay_urls = nostr_relay_urls;
    }

    pub fn add_nostr_relay(&mut self, nostr_relay_url: String)
        ensures
            final(self).nostr_relay_urls@ == old(self).nostr_relay_urls@.push(nostr_relay_url),
            final(self).wallet_id == old(self).wallet_id,
            final(self).network == old(self).network,
            final(self).data_path == old(self).data_path,
    {
        self.nostr_relay_urls.push(nostr_relay_url);
    }

    pub fn set_data_path(&mut self, data_path: String)
        ensures
            *final(self) == (WalletkaBuilder { data_path, ..*old(self) }),
    {
        self.data_path = data_path;
    }

    pub fn set_electrum_url(&mut self, electrum_url: Option<String>)
        ensures
            *final(self) == (WalletkaBuilder { electrum_url, ..*old(self) }),
    {
        self.electrum_url = electrum_url;
    }
}

} // verus!
