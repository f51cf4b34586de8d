//! The address command of the node's companion tool, reduced to its
//! decisions: which address a set of arguments builds, and which fields
//! an address displays. Keys travel as their bech32 text; the encodings
//! themselves belong to the shell around the library.

use vstd::prelude::*;

verus! {

/// Whether an address belongs to the production network or a test one.
#[derive(Clone, Copy, Debug, PartialEq, Eq, Structural)]
pub enum Discrimination {
    Production,
    Test,
}

/// The kind of an address, with the keys it commits to (as bech32 text).
#[derive(Clone, Debug, PartialEq, Eq)]
pub enum AddressKind {
    /// A single public key, without delegation.
    Single(String),
    /// An account public key.
    Account(String),
    /// A multi-signature address; the tool does not display these.
    Multisig(String),
    /// A public key with a group (delegation) key.
    Group(String, String),
}

/// An address: discrimination and kind.
#[derive(Clone, Debug, PartialEq, Eq)]
pub struct ChainAddress {
    pub discrimination: Discrimination,
    pub kind: AddressKind,
}

/// The fields the tool reports about an address.
#[derive(Clone, Debug, PartialEq, Eq)]
pub enum InfoReport {
    Single { discrimination: Discrimination, public_key: String },
    Account { discrimination: Discrimination, account: String },
    Group { discrimination: Discrimination, public_key: String, group_key: String },
}

/// Why an address command failed.
#[derive(Clone, Copy, Debug, PartialEq, Eq, Structural)]
pub enum AddressError {
    MultisigAddressNotSupported,
}

/// Arguments of the `info` subcommand: the address to describe.
pub struct InfoArgs {
    pub address: ChainAddress,
}

/// Arguments of the `single` subcommand.
pub struct SingleArgs {
    /// The public key, in bech32 text.
    pub key: String,
    /// An optional delegation key; with it the address becomes a group.
    pub delegation: Option<String>,
    /// The human-readable prefix for the encoded address.
    pub prefix: String,
    /// Whether to discriminate for a test network.
    pub testing: bool,
}

/// Arguments of the `account` subcommand.
pub struct AccountArgs {
    /// The account public key, in bech32 text.
    pub key: String,
    /// The human-readable prefix for the encoded address.
    pub prefix: String,
    /// Whether to discriminate for a test network.
    pub testing: bool,
}

/// What an address command produces: either the report on an existing
/// address, or a new address together with the prefix to encode it under.
#[derive(Clone, Debug, PartialEq, Eq)]
pub enum AddressOutput {
    Info(InfoReport),
    Created { prefix: String, address: ChainAddress },
}

/// The address subcommands.
pub enum Address {
    /// Describe an existing address.
    Info(InfoArgs),
    /// Build an address from a single public key, with or without a
    /// delegation key.
    Single(SingleArgs),
    /// Build an account address from a single public key.
    Account(AccountArgs),
}

/// The discrimination chosen by the `--testing` flag.
pub fn mk_discrimination(testing: bool) -> (d: Discrimination)
    ensures
        d == (if testing {
            Discrimination::Test
        } else {
            Discrimination::Production
        }),
{
    if testing {
        Discrimination::Test
    } else {
        Discrimination::Production
    }
}

/// Assembles an address from its parts, keeping the prefix it is to be
/// encoded under.
pub fn mk_address(discrimination: Discrimination, prefix: String, kind: AddressKind) -> (r: (
    String,
    ChainAddress,
))
    ensures
        r.0 == prefix,
        r.1 == (ChainAddress { discrimination, kind }),
{
    (prefix, ChainAddress { discrimination, kind })
}

/// A single-key address without delegation.
pub fn mk_single(key: String, prefix: String, testing: bool) -> (r: (String, ChainAddress))
    ensures
        r.0 == prefix,
        r.1.kind == AddressKind::Single(key),
        r.1.discrimination == (if testing {
            Discrimination::Test
        } else {
            Discrimination::Production
        }),
{
    let d = mk_discrimination(testing);
    mk_address(d, prefix, AddressKind::Single(key))
}

/// A single-key address with a delegation (group) key.
pub fn mk_delegation(key: String, prefix: String, testing: bool, delegation: String) -> (r: (
    String,
    ChainAddress,
))
    ensures
        r.0 == prefix,
        r.1.kind == AddressKind::Group(key, delegation),
        r.1.discrimination == (if testing {
            Discrimination::Test
        } else {
            Discrimination::Production
        }),
{
    let d = mk_discrimination(testing);
    mk_address(d, prefix, AddressKind::Group(key, delegation))
}

/// An account address.
pub fn mk_account(key: String, prefix: String, testing: bool) -> (r: (String, ChainAddress))
    ensures
        r.0 == prefix,
        r.1.kind == AddressKind::Account(key),
        r.1.discrimination == (if testing {
            Discrimination::Test
        } else {
            Discrimination::Production
        }),
{
    let d = mk_discrimination(testing);
    mk_address(d, prefix, AddressKind::Account(key))
}

/// The report on an address that is not multi-signature: its
/// discrimination and the keys of its kind.
pub open spec fn spec_info(address: ChainAddress) -> InfoReport
    recommends
        !(address.kind is Multisig),
{
    match address.kind {
        AddressKind::Single(k) => InfoReport::Single {
            discrimination: address.discrimination,
            public_key: k,
        },
        AddressKind::Account(k) => InfoReport::Account {
            discrimination: address.discrimination,
            account: k,
        },
        AddressKind::Group(k, g) => InfoReport::Group {
            discrimination: address.discrimination,
            public_key: k,
            group_key: g,
        },
        AddressKind::Multisig(k) => InfoReport::Account {
            discrimination: address.discrimination,
            account: k,
        },
    }
}

/// The fields reported for an address: its discrimination, and the keys
/// of its kind; a multi-signature address is refused.
pub fn address_info(address: &ChainAddress) -> (r: Result<InfoReport, AddressError>)
    ensures
        r is Err <==> address.kind is Multisig,
        r matches Err(e) ==> e == AddressError::MultisigAddressNotSupported,
        r matches Ok(info) ==> info == spec_info(*address),
{
    match &address.kind {
        AddressKind::Single(k) => Ok(InfoReport::Single {
            discrimination: address.discrimination,
            public_key: k.clone(),
        }),
        AddressKind::Account(k) => Ok(InfoReport::Account {
            discrimination: address.discrimination,
            account: k.clone(),
        }),
        AddressKind::Multisig(_) => Err(AddressError::MultisigAddressNotSupported),
        AddressKind::Group(k, g) => Ok(InfoReport::Group {
            discrimination: address.discrimination,
            public_key: k.clone(),
            group_key: g.clone(),
        }),
    }
}

impl Address {
    /// Runs one address subcommand: describes an address, or builds one
    /// from the given key material.
    pub fn exec(self) -> (r: Result<AddressOutput, AddressError>)
        ensures
            match self {
                Address::Info(args) => {
                    &&& (r is Err <==> args.address.kind is Multisig)
                    &&& r matches Err(e) ==> e == AddressError::MultisigAddressNotSupported
                    &&& r matches Ok(out) ==> out == AddressOutput::Info(spec_info(args.address))
                },
                Address::Single(args) => r matches Ok(out) && out matches AddressOutput::Created {
                    prefix,
                    address,
                } && prefix == args.prefix && address.discrimination == (if args.testing {
                    Discrimination::Test
                } else {
                    Discrimination::Production
                }) && address.kind == (match args.delegation {
                    Option::Some(d) => AddressKind::Group(args.key, d),
                    Option::None => AddressKind::Single(args.key),
                }),
                Address::Account(args) => r matches Ok(out) && out matches AddressOutput::Created {
                    prefix,
                    address,
                } && prefix == args.prefix && address.discrimination == (if args.testing {
                    Discrimination::Test
                } else {
                    Discrimination::Production
                }) && address.kind == AddressKind::Account(args.key),
            },
    {
        match self {
            Address::Info(info_args) => {
                let info = address_info(&info_args.address)?;
                Ok(AddressOutput::Info(info))
            }
            Address::Single(single_args) => {
                let (prefix, address) = if let Some(delegation) = single_args.delegation {
                    mk_delegation(
                        single_args.key,
                        single_args.prefix,
                        single_args.testing,
                        delegation,
                    )
                } else {
                    mk_single(single_args.key, single_args.prefix, single_args.testing)
                };
                Ok(AddressOutput::Created { prefix, address })
            }
            Address::Account(account_args) => {
                let (prefix, address) = mk_account(
                    account_args.key,
                    account_args.prefix,
                    account_args.testing,
                );
                Ok(AddressOutput::Created { prefix, address })
            }
        }
    }
}

} // verus!
