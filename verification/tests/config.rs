use ferris_torrent::config::client;
use ferris_torrent::config::tracker;

fn lines(texts: &[&str]) -> Vec<String> {
    texts.iter().map(|t| t.to_string()).collect()
}

#[test]
fn config_file_data_read_fill_config_data_ok() -> Result<(), client::ConfigFileDataError> {
    let config = client::ConfigFileData::new(lines(&[
        "port 6881",
        "download ferris_torrent/results/download",
        "logs ferris_torrent/results/logs",
    ]))?;
    assert_eq!(config.port, 6881);
    assert_eq!(config.download_path, "ferris_torrent/results/download");
    assert_eq!(config.log_path, "ferris_torrent/results/logs");
    Ok(())
}

#[test]
fn config_file_tracker_read_fill_config_data_ok() -> Result<(), tracker::ConfigFileDataError> {
    let config = tracker::ConfigFileData::new(lines(&[
        "number_of_threads 4",
        "torrents_path ferris_tracker/torrents_for_test",
    ]))?;
    assert_eq!(config.number_of_threads, 4);
    assert_eq!(config.torrents_path, "ferris_tracker/torrents_for_test");
    Ok(())
}

#[test]
fn client_config_getters_give_the_fields() {
    let config = client::ConfigFileData::new(lines(&["logs l", "download d", "port 80"])).unwrap();
    assert_eq!(config.get_port(), 80);
    assert_eq!(config.get_log_path(), "l");
    assert_eq!(config.get_download_path(), "d");
}

#[test]
fn client_config_with_wrong_number_of_lines_is_bad_size() {
    assert_eq!(
        client::ConfigFileData::new(lines(&["port 6881", "logs l"])),
        Err(client::ConfigFileDataError::BadSize)
    );
}

#[test]
fn client_config_line_without_exactly_one_space_is_invalid() {
    assert_eq!(
        client::ConfigFileData::new(lines(&["port  6881", "logs l", "download d"])),
        Err(client::ConfigFileDataError::InvalidFormat)
    );
    assert_eq!(
        client::ConfigFileData::new(lines(&["port6881", "logs l", "download d"])),
        Err(client::ConfigFileDataError::InvalidFormat)
    );
}

#[test]
fn client_config_port_must_be_a_number() {
    assert_eq!(
        client::ConfigFileData::new(lines(&["port abc", "logs l", "download d"])),
        Err(client::ConfigFileDataError::PortNotANumber)
    );
    assert_eq!(
        client::ConfigFileData::new(lines(&["port 4294967296", "logs l", "download d"])),
        Err(client::ConfigFileDataError::PortNotANumber)
    );
    let config = client::ConfigFileData::new(lines(&["port +4294967295", "logs l", "download d"])).unwrap();
    assert_eq!(config.port, 4294967295);
}

#[test]
fn client_config_missing_keys() {
    assert_eq!(
        client::ConfigFileData::new(lines(&["prt 1", "logs l", "download d"])),
        Err(client::ConfigFileDataError::MissingPort)
    );
    assert_eq!(
        client::ConfigFileData::new(lines(&["port 1", "log l", "download d"])),
        Err(client::ConfigFileDataError::MissingPath("logs".to_string()))
    );
    assert_eq!(
        client::ConfigFileData::new(lines(&["port 1", "logs l", "downloads d"])),
        Err(client::ConfigFileDataError::MissingPath("download".to_string()))
    );
}

#[test]
fn client_config_trims_white_space_and_later_lines_win() {
    let config = client::ConfigFileData::new(lines(&["port\t 7000\r", "port 7001", "logs\t x\r"])).unwrap_err();
    assert_eq!(config, client::ConfigFileDataError::MissingPath("download".to_string()));
    let config = client::ConfigFileData::new(lines(&["port\t 7000\r", "download d", "logs\t x\r"])).unwrap();
    assert_eq!(config.port, 7000);
    assert_eq!(config.log_path, "x");
    let config = client::ConfigFileData::new(lines(&["port 1", "port 2", "logs l"])).unwrap_err();
    assert_eq!(config, client::ConfigFileDataError::MissingPath("download".to_string()));
}

#[test]
fn tracker_config_errors() {
    assert_eq!(
        tracker::ConfigFileData::new(lines(&["number_of_threads 4"])),
        Err(tracker::ConfigFileDataError::BadSize)
    );
    assert_eq!(
        tracker::ConfigFileData::new(lines(&["number_of_threads four", "torrents_path p"])),
        Err(tracker::ConfigFileDataError::ThreadsNotANumber)
    );
    assert_eq!(
        tracker::ConfigFileData::new(lines(&["threads 4", "torrents_path p"])),
        Err(tracker::ConfigFileDataError::MissingThreads)
    );
    assert_eq!(
        tracker::ConfigFileData::new(lines(&["number_of_threads 4", "torrents p"])),
        Err(tracker::ConfigFileDataError::MissingPath("torrents_path".to_string()))
    );
    let config = tracker::ConfigFileData::new(lines(&["torrents_path p", "number_of_threads 2"])).unwrap();
    assert_eq!(config.get_number_of_threads(), 2);
    assert_eq!(config.get_torrents_path(), "p");
}
