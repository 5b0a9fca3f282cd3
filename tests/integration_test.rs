use klingt::Klingt;

#[test]
fn klingt_sample_rate() {
    let klingt = Klingt::new(48000);
    assert_eq!(klingt.sample_rate(), 48000);

    let klingt = Klingt::new(44100);
    assert_eq!(klingt.sample_rate(), 44100);
}
