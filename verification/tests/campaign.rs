//! Campaign loading: decoding tiers of named level codes.

use beamcore::level::LevelCampaign;
use beamcore::pbc1::Pbc1DecodeError;

#[test]
fn campaign_from_static_decodes_all_levels() {
    let levels: &[(&str, &str)] = &[("first", ":PBC1:ASJDCdIg"), ("second", ":PBC1:AQA=")];
    let data: &[(&str, &[(&str, &str)])] = &[("tier one", levels)];
    let campaign = match LevelCampaign::from_static(data) {
        Ok(c) => c,
        Err(_) => panic!("expected the campaign to load"),
    };
    assert_eq!(campaign.tiers.len(), 1);
    assert_eq!(campaign.levels.len(), 2);
    assert_eq!(campaign.tiers[0].name, "tier one");
    assert_eq!(campaign.tiers[0].levels, vec![0, 1]);
    assert_eq!(campaign.levels[0].name, "first");
    assert_eq!(campaign.levels[0].board.dims.rows, 2);
    assert_eq!(campaign.levels[1].board.dims.rows, 0);

    let meta = campaign.metadata(0);
    assert_eq!(meta.id, Some(0));
    assert_eq!(meta.name.as_deref(), Some("first"));
    assert_eq!(meta.next, Some(1));
    let last = campaign.metadata(1);
    assert_eq!(last.next, None);
}

#[test]
fn campaign_rejects_broken_level_code() {
    let levels: &[(&str, &str)] = &[("broken", "oops")];
    let data: &[(&str, &[(&str, &str)])] = &[("tier", levels)];
    assert!(matches!(
        LevelCampaign::from_static(data),
        Err(Pbc1DecodeError::Signature)
    ));
}
