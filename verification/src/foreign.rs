//! Types of std and libp2p that the library carries without looking inside.
use vstd::prelude::*;

verus! {

#[verifier::external_type_specification]
#[verifier::external_body]
pub struct ExPathBuf(std::path::PathBuf);

#[verifier::external_type_specification]
#[verifier::external_body]
pub struct ExKeypair(libp2p::identity::Keypair);

#[verifier::external_type_specification]
#[verifier::external_body]
#[verifier::reject_recursive_types(S)]
pub struct ExAllowBlockBehaviour<S>(libp2p::allow_block_list::Behaviour<S>);

#[verifier::external_type_specification]
#[verifier::external_body]
pub struct ExAllowedPeers(libp2p::allow_block_list::AllowedPeers);

} // verus!
