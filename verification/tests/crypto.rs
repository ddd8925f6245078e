use rustchain::crypto::{
    create_wallet, derive_address_from_public_key, sign_and_verify_with_key_pair, sign_message, verify_message, CryptoError,
};

#[test]
fn sign_and_verify_should_pass() {
    let (wallet, key_pair) = create_wallet("pass-123").expect("创建钱包应当成功");
    let message = b"rustchain-signature-check";
    let signature = sign_message(message, &key_pair.private_key).expect("签名应当成功");

    let verified = verify_message(message, &signature, &wallet.public_key).expect("验签应当成功");
    assert!(verified);
}

#[test]
fn tampered_message_should_fail_verify() {
    let (wallet, key_pair) = create_wallet("pass-123").expect("创建钱包应当成功");
    let signature = sign_message(b"origin", &key_pair.private_key).expect("签名应当成功");

    let verified = verify_message(b"tampered", &signature, &wallet.public_key).expect("验签过程应当可执行");
    assert!(!verified);
}

#[test]
fn wallet_create_sign_verify_should_pass() {
    let (wallet, key_pair) = create_wallet("wallet-pass").expect("创建钱包应当成功");
    assert_eq!(wallet.address, key_pair.address);
    assert_eq!(wallet.public_key, key_pair.public_key);

    let decrypted = wallet.decrypt_private_key("wallet-pass").expect("解密应当成功");
    assert_eq!(decrypted, key_pair.private_key);

    let signature = wallet.sign_message(b"rustchain-wallet-message", "wallet-pass").expect("签名应当成功");
    let verified = wallet.verify_message(b"rustchain-wallet-message", &signature).expect("验签应当成功");
    assert!(verified);
}

#[test]
fn wrong_password_should_not_restore_private_key() {
    let (wallet, key_pair) = create_wallet("wallet-pass").expect("创建钱包应当成功");
    let decrypted = wallet.decrypt_private_key("wrong-pass");

    assert!(matches!(decrypted, Err(CryptoError::WalletDecryptFailed)));
    assert!(!key_pair.private_key.is_empty());
}

#[test]
fn derive_address_from_public_key_should_match_wallet_address() {
    let (wallet, _) = create_wallet("wallet-pass").expect("创建钱包应当成功");
    let address = derive_address_from_public_key(&wallet.public_key).expect("派生地址应当成功");

    assert_eq!(address, wallet.address);
}

#[test]
fn wallet_key_pair_should_sign_and_verify_any_message() {
    let (_, key_pair) = create_wallet("pair-pass").expect("创建钱包应当成功");
    for message in [&b""[..], &b"a"[..], &b"rustchain"[..]] {
        assert_eq!(sign_and_verify_with_key_pair(message, &key_pair), Ok(true));
    }
}
