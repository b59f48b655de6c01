//! Small values of the login flow: the signature algorithms of identity
//! tokens and the address a user is sent to.

use vstd::prelude::*;
use vstd::string::*;

verus! {

/// An RSA signature algorithm of JSON web tokens.
#[derive(Clone, Copy, Debug, PartialEq, Eq, Structural)]
pub enum RsAlgorithm {
    Rs256,
    Rs384,
    Rs512,
}

impl RsAlgorithm {
    /// The name of the algorithm in the header of a token.
    pub open spec fn spec_name(self) -> Seq<char> {
        match self {
            RsAlgorithm::Rs256 => "RS256"@,
            RsAlgorithm::Rs384 => "RS384"@,
            RsAlgorithm::Rs512 => "RS512"@,
        }
    }

    /// The algorithm that a name stands for, `None` for every name but the
    /// three.
    pub open spec fn spec_from_name(name: Seq<char>) -> Option<RsAlgorithm> {
        if name == "RS256"@ {
            Some(RsAlgorithm::Rs256)
        } else if name == "RS384"@ {
            Some(RsAlgorithm::Rs384)
        } else if name == "RS512"@ {
            Some(RsAlgorithm::Rs512)
        } else {
            None
        }
    }

    /// The name of the algorithm in the header of a token.
    pub fn name(&self) -> (name: &'static str)
        ensures
            name@ == self.spec_name(),
    {
        match self {
            RsAlgorithm::Rs256 => "RS256",
            RsAlgorithm::Rs384 => "RS384",
            RsAlgorithm::Rs512 => "RS512",
        }
    }

    /// The algorithm that `name` stands for.
    pub fn from_name(name: &str) -> (algorithm: Option<RsAlgorithm>)
        ensures
            algorithm == RsAlgorithm::spec_from_name(name@),
    {
        let name = String::from_str(name);
        if name == String::from_str("RS256") {
            Some(RsAlgorithm::Rs256)
        } else if name == String::from_str("RS384") {
            Some(RsAlgorithm::Rs384)
        } else if name == String::from_str("RS512") {
            Some(RsAlgorithm::Rs512)
        } else {
            None
        }
    }
}

/// Each algorithm is found again by its name.
pub proof fn lemma_name_round_trip(algorithm: RsAlgorithm)
    ensures
        RsAlgorithm::spec_from_name(algorithm.spec_name()) == Some(algorithm),
{
    reveal_strlit("RS256");
    reveal_strlit("RS384");
    reveal_strlit("RS512");
    assert("RS384"@[2] != "RS256"@[2]);
    assert("RS512"@[2] != "RS256"@[2]);
    assert("RS512"@[2] != "RS384"@[2]);
}

/// The query parameter that carries the state of a login.
pub const STATE_PARAMETER: &'static str = "&state=";

/// The path, below the prefix of the site, that a login comes back to.
pub const LOGIN_CALLBACK_PATH: &'static str = "/user/google/login_callback";

/// The address a user is sent to in order to log in.
#[derive(Clone, Debug, PartialEq, Eq)]
pub struct RedirectUrl(pub String);

impl View for RedirectUrl {
    type V = Seq<char>;

    open spec fn view(&self) -> Seq<char> {
        self.0@
    }
}

impl RedirectUrl {
    /// The address `url` with the state of the login added as its last
    /// query parameter. The address must hold a query already.
    pub fn with_state(url: &str, state: &str) -> (address: RedirectUrl)
        ensures
            address@ == url@ + STATE_PARAMETER@ + state@,
    {
        let mut address = String::from_str(url);
        address.append(STATE_PARAMETER);
        address.append(state);
        RedirectUrl(address)
    }
}

/// The address that a login comes back to, below `redirect_prefix`.
pub fn login_callback_uri(redirect_prefix: &str) -> (uri: String)
    ensures
        uri@ == redirect_prefix@ + LOGIN_CALLBACK_PATH@,
{
    let mut uri = String::from_str(redirect_prefix);
    uri.append(LOGIN_CALLBACK_PATH);
    uri
}

} // verus!
