use jormungandr::address::{
    address_info, mk_account, mk_delegation, mk_discrimination, mk_single, AccountArgs, Address,
    AddressError, AddressKind, AddressOutput, ChainAddress, Discrimination, InfoArgs, InfoReport,
    SingleArgs,
};

#[test]
fn discrimination_follows_testing_flag() {
    assert_eq!(mk_discrimination(false), Discrimination::Production);
    assert_eq!(mk_discrimination(true), Discrimination::Test);
}

#[test]
fn single_address_from_one_key() {
    let (prefix, address) = mk_single(String::from("pk1"), String::from("ca"), false);
    assert_eq!(prefix, "ca");
    assert_eq!(address.discrimination, Discrimination::Production);
    assert_eq!(address.kind, AddressKind::Single(String::from("pk1")));
}

#[test]
fn delegation_address_carries_both_keys() {
    let (prefix, address) =
        mk_delegation(String::from("pk1"), String::from("ta"), true, String::from("gk1"));
    assert_eq!(prefix, "ta");
    assert_eq!(address.discrimination, Discrimination::Test);
    assert_eq!(address.kind, AddressKind::Group(String::from("pk1"), String::from("gk1")));
}

#[test]
fn account_address_from_one_key() {
    let (_, address) = mk_account(String::from("ak1"), String::from("ca"), false);
    assert_eq!(address.kind, AddressKind::Account(String::from("ak1")));
}

#[test]
fn info_describes_group_address() {
    let address = ChainAddress {
        discrimination: Discrimination::Production,
        kind: AddressKind::Group(String::from("pk"), String::from("gk")),
    };
    let report = address_info(&address).unwrap();
    assert_eq!(
        report,
        InfoReport::Group {
            discrimination: Discrimination::Production,
            public_key: String::from("pk"),
            group_key: String::from("gk"),
        }
    );
}

#[test]
fn info_refuses_multisig_address() {
    let address = ChainAddress {
        discrimination: Discrimination::Test,
        kind: AddressKind::Multisig(String::from("mk")),
    };
    assert_eq!(address_info(&address), Err(AddressError::MultisigAddressNotSupported));
}

#[test]
fn exec_dispatches_subcommands() {
    let info = Address::Info(InfoArgs {
        address: ChainAddress {
            discrimination: Discrimination::Test,
            kind: AddressKind::Account(String::from("ak")),
        },
    });
    assert_eq!(
        info.exec(),
        Ok(AddressOutput::Info(InfoReport::Account {
            discrimination: Discrimination::Test,
            account: String::from("ak"),
        }))
    );

    let single = Address::Single(SingleArgs {
        key: String::from("pk"),
        delegation: Some(String::from("gk")),
        prefix: String::from("ca"),
        testing: false,
    });
    assert_eq!(
        single.exec(),
        Ok(AddressOutput::Created {
            prefix: String::from("ca"),
            address: ChainAddress {
                discrimination: Discrimination::Production,
                kind: AddressKind::Group(String::from("pk"), String::from("gk")),
            },
        })
    );

    let account = Address::Account(AccountArgs {
        key: String::from("ak"),
        prefix: String::from("ta"),
        testing: true,
    });
    assert_eq!(
        account.exec(),
        Ok(AddressOutput::Created {
            prefix: String::from("ta"),
            address: ChainAddress {
                discrimination: Discrimination::Test,
                kind: AddressKind::Account(String::from("ak")),
            },
        })
    );
}
