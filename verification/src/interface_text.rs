//! The interface's phrases in Traditional Chinese, Japanese and English, and
//! the status lines, labels and summaries built from them.

use crate::quick_share_qr::QuickShareQrError;
use crate::quick_share_receiver::TransferOfferItem;
use crate::quick_share_sender::{send_error_text, QuickShareSendError, QuickShareSendProgress};
use crate::quick_share_sender::{ascii_lower, last_dot, lower_tail_is};
use crate::settings::InterfaceLanguage;
use crate::status_board::{Activity, ReceiveStatus, SendStatus};
use crate::text::{contains_text, decimal_text, has_run, push_decimal, same_text};
use vstd::prelude::*;

verus! {

/// One text in the three languages of the interface.
pub type Phrase = (&'static str, &'static str, &'static str);

/// The text of a phrase in a language.
pub open spec fn pick(language: InterfaceLanguage, phrase: Phrase) -> &'static str {
    match language {
        InterfaceLanguage::TraditionalChinese => phrase.0,
        InterfaceLanguage::Japanese => phrase.1,
        InterfaceLanguage::English => phrase.2,
    }
}

fn pick_text(language: InterfaceLanguage, phrase: Phrase) -> (r: &'static str)
    ensures
        r == pick(language, phrase),
{
    match language {
        InterfaceLanguage::TraditionalChinese => phrase.0,
        InterfaceLanguage::Japanese => phrase.1,
        InterfaceLanguage::English => phrase.2,
    }
}

// ---------------------------------------------------------------------------
// The phrase book.
// ---------------------------------------------------------------------------

/// The interface's fixed phrases, keyed by their Traditional Chinese text.
pub open spec fn phrase_book() -> Seq<Phrase> {
    seq![
        ("設定", "設定", "Settings"),
        ("接收", "受信", "Receive"),
        ("傳送", "送信", "Send"),
        ("可接收", "受信可能", "Available"),
        ("未接收", "受信停止", "Not receiving"),
        ("收到傳送要求", "共有リクエストを受信", "Incoming share request"),
        ("請在兩台裝置核對 PIN", "両方の端末で PIN を確認してください", "Verify the PIN on both devices"),
        ("接受", "受け入れる", "Accept"),
        ("拒絕", "拒否", "Decline"),
        ("接收準備中…", "受信準備中…", "Ready to receive…"),
        ("目前不接收", "現在は受信していません", "Not receiving"),
        ("附近的 Quick Share 裝置可以找到這台電腦", "近くの Quick Share 端末からこのパソコンを検出できます", "Nearby Quick Share devices can find this computer"),
        ("按下方按鈕即可重新進入接收狀態", "ボタンを押すと受信を再開します", "Use the button below to start receiving"),
        ("開始接收", "受信を開始", "Start receiving"),
        ("選擇要分享的內容", "共有する内容を選択", "Choose what to share"),
        ("也可以把檔案或資料夾拖進視窗", "ファイルやフォルダをここにドロップできます", "You can also drop files or folders here"),
        ("＋  選取檔案", "＋  ファイル", "+  Files"),
        ("＋  選取資料夾", "＋  フォルダ", "+  Folder"),
        ("編輯", "編集", "Edit"),
        ("清除", "クリア", "Clear"),
        ("與附近裝置分享", "近くのデバイスと共有", "Share with nearby devices"),
        ("透過現有區域網路自動尋找，不需要 Wi‑Fi 或藍牙介面卡", "現在の LAN で自動検索します。Wi‑Fi／Bluetooth アダプターは不要です", "Searches your current LAN; no Wi-Fi or Bluetooth adapter required"),
        ("正在搜尋 Quick Share 裝置…", "Quick Share デバイスを検索中…", "Searching for Quick Share devices…"),
        ("請在 Windows 開啟 Quick Share 接收畫面", "Windows で Quick Share の受信画面を開いてください", "Open the Quick Share receive screen on Windows"),
        ("按一下直接傳送，並核對兩台裝置的 PIN", "クリックして直接送信し、両端末の PIN を確認します", "Click to send directly, then verify the PIN on both devices"),
        ("或使用 QR code", "または QR コードを使用", "Or use a QR code"),
        ("用 Android 原生 Quick Share 掃描", "Android の Quick Share でスキャン", "Scan with Android Quick Share"),
        ("取消 QR／改用其他方式", "QR を中止／別の方法を使う", "Cancel QR / use another method"),
        ("手機不必安裝 App", "スマートフォンへのアプリ導入は不要です", "No phone app required"),
        ("找不到區網裝置時會自動顯示 QR", "LAN デバイスがない場合は QR を自動表示します", "QR appears automatically when no LAN device is found"),
        ("掃描後由 Android 原生 Quick Share 接收", "スキャン後、Android の Quick Share で受信します", "Scan to receive with Android Quick Share"),
        ("顯示 QR", "QR を表示", "Show QR"),
        ("裝置名稱", "デバイス名", "Device name"),
        ("裝置分享設定", "デバイスの共有設定", "Device visibility"),
        ("附近的所有人都能看到分享要求", "近くにいる全員が共有リクエストを表示できます", "Everyone nearby can see share requests"),
        ("目前依 Quick Share 相容模式固定，不能改成聯絡人限定", "Quick Share 互換モードのため、連絡先限定には変更できません", "Quick Share compatibility currently requires this fixed visibility"),
        ("接收檔案儲存位置", "受信ファイルの保存先", "Save received files to"),
        ("選擇資料夾", "フォルダを選択", "Choose folder"),
        ("接收與提醒", "受信と通知", "Receiving and notifications"),
        ("開啟 HiRodrop 時自動進入接收狀態", "HiRodrop 起動時に自動で受信を開始", "Start receiving when HiRodrop opens"),
        ("收到要求與完成時通知我", "リクエスト受信時と完了時に通知", "Notify me for requests and completed transfers"),
        ("傳送選項", "送信オプション", "Sending options"),
        ("顯示速度、容量與傳送進度", "速度、サイズ、進行状況を表示", "Show speed, size, and transfer progress"),
        ("找不到區網裝置時自動顯示 QR", "LAN デバイスがない場合に QR を自動表示", "Show QR when no LAN device is found"),
        ("區網傳送失敗時自動重試一次", "LAN 送信失敗時に一度だけ再試行", "Retry a failed LAN transfer once"),
        ("語言", "言語", "Language"),
        ("安全性", "セキュリティ", "Security"),
        ("開源軟體致謝", "オープンソース謝辞", "Open-source acknowledgements"),
        ("HiRodrop 以 GPLv3 或更新版本開源，感謝以下專案：", "HiRodrop は GPLv3 以降で公開されています。以下のプロジェクトに感謝します。", "HiRodrop is released under GPLv3 or later. Thanks to these projects:"),
        ("每次連線皆使用端對端加密，並以 PIN 核對裝置。", "すべての接続をエンドツーエンドで暗号化し、PIN で端末を確認します。", "Every connection is end-to-end encrypted and verified with a PIN."),
        ("可信裝置將以密碼學身分實作；目前不會用名稱或 IP 自動放行。", "信頼済み端末は暗号学的 ID で実装予定です。名前や IP だけでは自動許可しません。", "Trusted devices will use cryptographic identity; names and IPs are never auto-approved."),
        ("Galaxy 相容性", "Galaxy 互換性", "Galaxy compatibility"),
        ("若啟用三星的 AirDrop 相容模式後 Wi‑Fi 會斷線，請先將它關閉。", "Samsung の AirDrop 互換モードで Wi‑Fi が切れる場合は、先に無効にしてください。", "If Samsung AirDrop compatibility disconnects Wi-Fi, turn it off before using HiRodrop."),
        ("HiRodrop 不會自行更改手機的 Wi‑Fi 或分享設定。", "HiRodrop がスマートフォンの Wi‑Fi や共有設定を変更することはありません。", "HiRodrop never changes phone Wi-Fi or sharing settings."),
        ("Galaxy 提示：若開啟 AirDrop 相容模式會中斷 Wi‑Fi，請先關閉該模式再使用 LAN／QR 傳送。", "Galaxy：AirDrop 互換モードで Wi‑Fi が切れる場合は、無効にしてから LAN／QR 送信を使用してください。", "Galaxy: if AirDrop compatibility disconnects Wi-Fi, turn it off before LAN or QR transfers."),
        ("儲存設定", "設定を保存", "Save settings"),
        ("目前沒有紀錄", "履歴はありません", "No activity yet"),
        ("活動紀錄", "アクティビティ", "Activity"),
        ("停止接收", "受信を停止", "Stop receiving"),
        ("選取檔案後即可傳送", "ファイルを選択すると送信できます", "Choose files to begin sending"),
        ("請用手機相機或 Quick Share 掃描 QR code", "スマートフォンのカメラまたは Quick Share で QR をスキャンしてください", "Scan the QR code with your phone camera or Quick Share"),
        ("已取消 QR，可修改檔案或選擇其他裝置", "QR を中止しました。ファイルまたは送信先を変更できます", "QR cancelled. You can edit files or choose another device"),
        ("裝置沒有可用的內網位址", "デバイスに利用可能な LAN アドレスがありません", "The device has no available LAN address"),
        ("等待手機掃描 QR code…", "スマートフォンの QR スキャンを待機中…", "Waiting for the phone to scan the QR code…"),
        ("正在建立端對端加密連線…", "エンドツーエンド暗号化接続を確立中…", "Establishing an end-to-end encrypted connection…"),
        ("等待手機接受傳送…", "スマートフォンの受け入れを待機中…", "Waiting for the phone to accept…"),
        ("資料已送達，等待接收端完成寫入…", "送信済み。受信側の保存完了を待機中…", "Data delivered; waiting for the receiver to finish saving…"),
        ("傳送完成", "送信完了", "Transfer complete"),
        ("收到 Quick Share 傳送要求", "Quick Share の共有リクエスト", "Incoming Quick Share request"),
        ("HiRodrop 接收完成", "HiRodrop 受信完了", "HiRodrop receive complete"),
        ("檔案已安全儲存，接收服務繼續待命。", "ファイルを保存しました。引き続き受信を待機します。", "Files saved safely. HiRodrop is still ready to receive."),
        ("HiRodrop 傳送完成", "HiRodrop 送信完了", "HiRodrop transfer complete"),
        ("所有選取的項目都已送達。", "選択した項目をすべて送信しました。", "All selected items were delivered."),
        ("HiRodrop 傳送失敗", "HiRodrop 送信失敗", "HiRodrop transfer failed"),
        ("顯示 HiRodrop", "HiRodrop を表示", "Show HiRodrop"),
        ("傳送檔案…", "ファイルを送信…", "Send files…"),
        ("結束 HiRodrop", "HiRodrop を終了", "Quit HiRodrop"),
        ("HiRodrop · Quick Share 接收中", "HiRodrop · Quick Share 受信中", "HiRodrop · Quick Share receiving"),
        ("接收服務尚未啟動", "受信サービスはまだ開始されていません", "The receiving service has not started"),
        ("裝置名稱必須是 1–255 UTF-8 bytes", "デバイス名は 1～255 UTF-8 バイトで入力してください", "Device name must be 1–255 UTF-8 bytes"),
        ("請選擇接收資料夾", "受信フォルダを選択してください", "Choose a folder for received files"),
        ("正在啟動接收服務…", "受信サービスを開始中…", "Starting the receiving service…"),
        ("正在停止…", "停止中…", "Stopping…"),
        ("可被 Android 原生 Quick Share 找到", "Android の Quick Share から検出可能です", "Visible to Android Quick Share"),
        ("接收完成，繼續待命", "受信完了。引き続き待機中", "Receive complete; still available"),
        ("上一筆連線失敗，仍在待命", "直前の接続に失敗しました。引き続き待機中", "Last connection failed; still available"),
        ("接收服務已停止", "受信サービスを停止しました", "Receiving service stopped"),
        ("正在接收檔案…", "ファイルを受信中…", "Receiving files…"),
        ("已拒絕，繼續待命", "拒否しました。引き続き待機中", "Declined; still available"),
        ("設定已儲存", "設定を保存しました", "Settings saved"),
        ("檔案", "ファイル", "File"),
        ("Android（QR）", "Android（QR）", "Android (QR)"),
    ]
}

/// The phrase book as a vector.
fn phrases() -> (r: Vec<Phrase>)
    ensures
        r@ == phrase_book(),
{
    let v: Vec<Phrase> = vec![
        ("設定", "設定", "Settings"),
        ("接收", "受信", "Receive"),
        ("傳送", "送信", "Send"),
        ("可接收", "受信可能", "Available"),
        ("未接收", "受信停止", "Not receiving"),
        ("收到傳送要求", "共有リクエストを受信", "Incoming share request"),
        ("請在兩台裝置核對 PIN", "両方の端末で PIN を確認してください", "Verify the PIN on both devices"),
        ("接受", "受け入れる", "Accept"),
        ("拒絕", "拒否", "Decline"),
        ("接收準備中…", "受信準備中…", "Ready to receive…"),
        ("目前不接收", "現在は受信していません", "Not receiving"),
        ("附近的 Quick Share 裝置可以找到這台電腦", "近くの Quick Share 端末からこのパソコンを検出できます", "Nearby Quick Share devices can find this computer"),
        ("按下方按鈕即可重新進入接收狀態", "ボタンを押すと受信を再開します", "Use the button below to start receiving"),
        ("開始接收", "受信を開始", "Start receiving"),
        ("選擇要分享的內容", "共有する内容を選択", "Choose what to share"),
        ("也可以把檔案或資料夾拖進視窗", "ファイルやフォルダをここにドロップできます", "You can also drop files or folders here"),
        ("＋  選取檔案", "＋  ファイル", "+  Files"),
        ("＋  選取資料夾", "＋  フォルダ", "+  Folder"),
        ("編輯", "編集", "Edit"),
        ("清除", "クリア", "Clear"),
        ("與附近裝置分享", "近くのデバイスと共有", "Share with nearby devices"),
        ("透過現有區域網路自動尋找，不需要 Wi‑Fi 或藍牙介面卡", "現在の LAN で自動検索します。Wi‑Fi／Bluetooth アダプターは不要です", "Searches your current LAN; no Wi-Fi or Bluetooth adapter required"),
        ("正在搜尋 Quick Share 裝置…", "Quick Share デバイスを検索中…", "Searching for Quick Share devices…"),
        ("請在 Windows 開啟 Quick Share 接收畫面", "Windows で Quick Share の受信画面を開いてください", "Open the Quick Share receive screen on Windows"),
        ("按一下直接傳送，並核對兩台裝置的 PIN", "クリックして直接送信し、両端末の PIN を確認します", "Click to send directly, then verify the PIN on both devices"),
        ("或使用 QR code", "または QR コードを使用", "Or use a QR code"),
        ("用 Android 原生 Quick Share 掃描", "Android の Quick Share でスキャン", "Scan with Android Quick Share"),
        ("取消 QR／改用其他方式", "QR を中止／別の方法を使う", "Cancel QR / use another method"),
        ("手機不必安裝 App", "スマートフォンへのアプリ導入は不要です", "No phone app required"),
        ("找不到區網裝置時會自動顯示 QR", "LAN デバイスがない場合は QR を自動表示します", "QR appears automatically when no LAN device is found"),
        ("掃描後由 Android 原生 Quick Share 接收", "スキャン後、Android の Quick Share で受信します", "Scan to receive with Android Quick Share"),
        ("顯示 QR", "QR を表示", "Show QR"),
        ("裝置名稱", "デバイス名", "Device name"),
        ("裝置分享設定", "デバイスの共有設定", "Device visibility"),
        ("附近的所有人都能看到分享要求", "近くにいる全員が共有リクエストを表示できます", "Everyone nearby can see share requests"),
        ("目前依 Quick Share 相容模式固定，不能改成聯絡人限定", "Quick Share 互換モードのため、連絡先限定には変更できません", "Quick Share compatibility currently requires this fixed visibility"),
        ("接收檔案儲存位置", "受信ファイルの保存先", "Save received files to"),
        ("選擇資料夾", "フォルダを選択", "Choose folder"),
        ("接收與提醒", "受信と通知", "Receiving and notifications"),
        ("開啟 HiRodrop 時自動進入接收狀態", "HiRodrop 起動時に自動で受信を開始", "Start receiving when HiRodrop opens"),
        ("收到要求與完成時通知我", "リクエスト受信時と完了時に通知", "Notify me for requests and completed transfers"),
        ("傳送選項", "送信オプション", "Sending options"),
        ("顯示速度、容量與傳送進度", "速度、サイズ、進行状況を表示", "Show speed, size, and transfer progress"),
        ("找不到區網裝置時自動顯示 QR", "LAN デバイスがない場合に QR を自動表示", "Show QR when no LAN device is found"),
        ("區網傳送失敗時自動重試一次", "LAN 送信失敗時に一度だけ再試行", "Retry a failed LAN transfer once"),
        ("語言", "言語", "Language"),
        ("安全性", "セキュリティ", "Security"),
        ("開源軟體致謝", "オープンソース謝辞", "Open-source acknowledgements"),
        ("HiRodrop 以 GPLv3 或更新版本開源，感謝以下專案：", "HiRodrop は GPLv3 以降で公開されています。以下のプロジェクトに感謝します。", "HiRodrop is released under GPLv3 or later. Thanks to these projects:"),
        ("每次連線皆使用端對端加密，並以 PIN 核對裝置。", "すべての接続をエンドツーエンドで暗号化し、PIN で端末を確認します。", "Every connection is end-to-end encrypted and verified with a PIN."),
        ("可信裝置將以密碼學身分實作；目前不會用名稱或 IP 自動放行。", "信頼済み端末は暗号学的 ID で実装予定です。名前や IP だけでは自動許可しません。", "Trusted devices will use cryptographic identity; names and IPs are never auto-approved."),
        ("Galaxy 相容性", "Galaxy 互換性", "Galaxy compatibility"),
        ("若啟用三星的 AirDrop 相容模式後 Wi‑Fi 會斷線，請先將它關閉。", "Samsung の AirDrop 互換モードで Wi‑Fi が切れる場合は、先に無効にしてください。", "If Samsung AirDrop compatibility disconnects Wi-Fi, turn it off before using HiRodrop."),
        ("HiRodrop 不會自行更改手機的 Wi‑Fi 或分享設定。", "HiRodrop がスマートフォンの Wi‑Fi や共有設定を変更することはありません。", "HiRodrop never changes phone Wi-Fi or sharing settings."),
        ("Galaxy 提示：若開啟 AirDrop 相容模式會中斷 Wi‑Fi，請先關閉該模式再使用 LAN／QR 傳送。", "Galaxy：AirDrop 互換モードで Wi‑Fi が切れる場合は、無効にしてから LAN／QR 送信を使用してください。", "Galaxy: if AirDrop compatibility disconnects Wi-Fi, turn it off before LAN or QR transfers."),
        ("儲存設定", "設定を保存", "Save settings"),
        ("目前沒有紀錄", "履歴はありません", "No activity yet"),
        ("活動紀錄", "アクティビティ", "Activity"),
        ("停止接收", "受信を停止", "Stop receiving"),
        ("選取檔案後即可傳送", "ファイルを選択すると送信できます", "Choose files to begin sending"),
        ("請用手機相機或 Quick Share 掃描 QR code", "スマートフォンのカメラまたは Quick Share で QR をスキャンしてください", "Scan the QR code with your phone camera or Quick Share"),
        ("已取消 QR，可修改檔案或選擇其他裝置", "QR を中止しました。ファイルまたは送信先を変更できます", "QR cancelled. You can edit files or choose another device"),
        ("裝置沒有可用的內網位址", "デバイスに利用可能な LAN アドレスがありません", "The device has no available LAN address"),
        ("等待手機掃描 QR code…", "スマートフォンの QR スキャンを待機中…", "Waiting for the phone to scan the QR code…"),
        ("正在建立端對端加密連線…", "エンドツーエンド暗号化接続を確立中…", "Establishing an end-to-end encrypted connection…"),
        ("等待手機接受傳送…", "スマートフォンの受け入れを待機中…", "Waiting for the phone to accept…"),
        ("資料已送達，等待接收端完成寫入…", "送信済み。受信側の保存完了を待機中…", "Data delivered; waiting for the receiver to finish saving…"),
        ("傳送完成", "送信完了", "Transfer complete"),
        ("收到 Quick Share 傳送要求", "Quick Share の共有リクエスト", "Incoming Quick Share request"),
        ("HiRodrop 接收完成", "HiRodrop 受信完了", "HiRodrop receive complete"),
        ("檔案已安全儲存，接收服務繼續待命。", "ファイルを保存しました。引き続き受信を待機します。", "Files saved safely. HiRodrop is still ready to receive."),
        ("HiRodrop 傳送完成", "HiRodrop 送信完了", "HiRodrop transfer complete"),
        ("所有選取的項目都已送達。", "選択した項目をすべて送信しました。", "All selected items were delivered."),
        ("HiRodrop 傳送失敗", "HiRodrop 送信失敗", "HiRodrop transfer failed"),
        ("顯示 HiRodrop", "HiRodrop を表示", "Show HiRodrop"),
        ("傳送檔案…", "ファイルを送信…", "Send files…"),
        ("結束 HiRodrop", "HiRodrop を終了", "Quit HiRodrop"),
        ("HiRodrop · Quick Share 接收中", "HiRodrop · Quick Share 受信中", "HiRodrop · Quick Share receiving"),
        ("接收服務尚未啟動", "受信サービスはまだ開始されていません", "The receiving service has not started"),
        ("裝置名稱必須是 1–255 UTF-8 bytes", "デバイス名は 1～255 UTF-8 バイトで入力してください", "Device name must be 1–255 UTF-8 bytes"),
        ("請選擇接收資料夾", "受信フォルダを選択してください", "Choose a folder for received files"),
        ("正在啟動接收服務…", "受信サービスを開始中…", "Starting the receiving service…"),
        ("正在停止…", "停止中…", "Stopping…"),
        ("可被 Android 原生 Quick Share 找到", "Android の Quick Share から検出可能です", "Visible to Android Quick Share"),
        ("接收完成，繼續待命", "受信完了。引き続き待機中", "Receive complete; still available"),
        ("上一筆連線失敗，仍在待命", "直前の接続に失敗しました。引き続き待機中", "Last connection failed; still available"),
        ("接收服務已停止", "受信サービスを停止しました", "Receiving service stopped"),
        ("正在接收檔案…", "ファイルを受信中…", "Receiving files…"),
        ("已拒絕，繼續待命", "拒否しました。引き続き待機中", "Declined; still available"),
        ("設定已儲存", "設定を保存しました", "Settings saved"),
        ("檔案", "ファイル", "File"),
        ("Android（QR）", "Android（QR）", "Android (QR)"),
    ];
    assert(v@ =~= phrase_book());
    v
}

/// The first entry of `book`, from `from` on, whose Chinese text is `text`.
pub open spec fn find_phrase(book: Seq<Phrase>, text: Seq<char>, from: nat) -> Option<int>
    decreases book.len() - from,
{
    if from >= book.len() {
        None
    } else if book[from as int].0@ == text {
        Some(from as int)
    } else {
        find_phrase(book, text, from + 1)
    }
}

/// A fixed phrase in a language: the phrase book's entry for the Chinese
/// text, or the text itself where the book has none.
pub open spec fn localized(language: InterfaceLanguage, text: Seq<char>) -> Seq<char> {
    match find_phrase(phrase_book(), text, 0) {
        Some(k) => pick(language, phrase_book()[k])@,
        None => text,
    }
}

/// The interface text for a Traditional Chinese phrase.
pub fn tr(language: InterfaceLanguage, text: &'static str) -> (r: &'static str)
    ensures
        language == InterfaceLanguage::TraditionalChinese ==> r == text,
        r@ == localized(language, text@),
{
    if language == InterfaceLanguage::TraditionalChinese {
        proof { lemma_found_phrase_is_the_text(text@, 0); }
        return text;
    }
    let book = phrases();
    let mut i: usize = 0;
    while i < book.len()
        invariant
            language != InterfaceLanguage::TraditionalChinese,
            book@ == phrase_book(),
            i <= book@.len(),
            find_phrase(phrase_book(), text@, 0) == find_phrase(phrase_book(), text@, i as nat),
        decreases book@.len() - i,
    {
        let entry = book[i];
        if same_text(entry.0, text) {
            return pick_text(language, entry);
        }
        i = i + 1;
    }
    text
}

/// The phrase found for a text has that text as its Chinese form.
proof fn lemma_found_phrase_is_the_text(text: Seq<char>, from: nat)
    ensures
        find_phrase(phrase_book(), text, from) matches Some(k) ==> 0 <= k < phrase_book().len()
            && phrase_book()[k].0@ == text,
    decreases phrase_book().len() - from,
{
    if from < phrase_book().len() {
        lemma_found_phrase_is_the_text(text, from + 1);
    }
}

// ---------------------------------------------------------------------------
// Status lines with one inserted value.
// ---------------------------------------------------------------------------

/// `before`, the value and `after`, each phrase in the given language.
fn around(language: InterfaceLanguage, before: Phrase, value: &str, after: Phrase) -> (r: String)
    ensures
        r@ == pick(language, before)@ + value@ + pick(language, after)@,
{
    let mut s = String::from_str(pick_text(language, before));
    s.append(value);
    s.append(pick_text(language, after));
    s
}

/// "From: {peer}".
pub fn peer_label(language: InterfaceLanguage, peer_name: &str) -> (r: String)
    ensures
        r@ == pick(language, ("來自：", "送信元：", "From: "))@ + peer_name@ + pick(language, ("", "", ""))@,
{
    around(language, ("來自：", "送信元：", "From: "), peer_name, ("", "", ""))
}

/// "Connecting to {name}…".
pub fn connecting_status(language: InterfaceLanguage, name: &str) -> (r: String)
    ensures
        r@ == pick(language, ("正在連接 ", "", "Connecting to "))@ + name@ + pick(language, ("…", " に接続中…", "…"))@,
{
    around(language, ("正在連接 ", "", "Connecting to "), name, ("…", " に接続中…", "…"))
}

/// "Found {name}".
pub fn found_status(language: InterfaceLanguage, name: &str) -> (r: String)
    ensures
        r@ == pick(language, ("已找到 ", "", "Found "))@ + name@ + pick(language, ("", " が見つかりました", ""))@,
{
    around(language, ("已找到 ", "", "Found "), name, ("", " が見つかりました", ""))
}

/// "PIN {pin} · verify it on the receiving device".
pub fn pin_status(language: InterfaceLanguage, pin: &str) -> (r: String)
    ensures
        r@ == pick(language, ("驗證碼 ", "PIN ", "PIN "))@ + pin@ + pick(
            language,
            (" · 請在接收裝置核對", " · 受信端末で確認してください", " · verify it on the receiving device"),
        )@,
{
    around(
        language,
        ("驗證碼 ", "PIN ", "PIN "),
        pin,
        (" · 請在接收裝置核對", " · 受信端末で確認してください", " · verify it on the receiving device"),
    )
}

/// "Sending {file}".
pub fn sending_status(language: InterfaceLanguage, file_name: &str) -> (r: String)
    ensures
        r@ == pick(language, ("正在傳送 ", "", "Sending "))@ + file_name@ + pick(language, ("", " を送信中", ""))@,
{
    around(language, ("正在傳送 ", "", "Sending "), file_name, ("", " を送信中", ""))
}

/// "Transfer failed: {message}".
pub fn failed_status(language: InterfaceLanguage, message: &str) -> (r: String)
    ensures
        r@ == pick(language, ("傳送失敗：", "送信に失敗しました：", "Transfer failed: "))@ + message@ + pick(
            language,
            ("", "", ""),
        )@,
{
    around(language, ("傳送失敗：", "送信に失敗しました：", "Transfer failed: "), message, ("", "", ""))
}

/// "Could not save settings: {message}".
pub fn settings_save_failed(language: InterfaceLanguage, message: &str) -> (r: String)
    ensures
        r@ == pick(language, ("設定儲存失敗：", "設定を保存できませんでした：", "Could not save settings: "))@
            + message@ + pick(language, ("", "", ""))@,
{
    around(
        language,
        ("設定儲存失敗：", "設定を保存できませんでした：", "Could not save settings: "),
        message,
        ("", "", ""),
    )
}

/// "Could not generate QR: {message}".
pub fn qr_error_status(language: InterfaceLanguage, message: &str) -> (r: String)
    ensures
        r@ == pick(language, ("無法產生 QR：", "QR を生成できません：", "Could not generate QR: "))@ + message@
            + pick(language, ("", "", ""))@,
{
    around(language, ("無法產生 QR：", "QR を生成できません：", "Could not generate QR: "), message, ("", "", ""))
}

/// "Declined a simultaneous request from {peer}: another confirmation is pending".
pub fn concurrent_reject_activity(language: InterfaceLanguage, peer_name: &str) -> (r: String)
    ensures
        r@ == pick(language, ("已拒絕來自 ", "", "Declined a simultaneous request from "))@ + peer_name@ + pick(
            language,
            (
                " 的同時傳送要求：目前正等待另一筆確認",
                " からの同時リクエストを拒否：別の確認を待機中です",
                ": another confirmation is pending",
            ),
        )@,
{
    around(
        language,
        ("已拒絕來自 ", "", "Declined a simultaneous request from "),
        peer_name,
        (
            " 的同時傳送要求：目前正等待另一筆確認",
            " からの同時リクエストを拒否：別の確認を待機中です",
            ": another confirmation is pending",
        ),
    )
}

/// "{peer} wants to share files".
pub fn incoming_status(language: InterfaceLanguage, peer_name: &str) -> (r: String)
    ensures
        r@ == pick(language, ("", "", ""))@ + peer_name@ + pick(
            language,
            (" 想傳送檔案", " がファイルを共有しようとしています", " wants to share files"),
        )@,
{
    around(
        language,
        ("", "", ""),
        peer_name,
        (" 想傳送檔案", " がファイルを共有しようとしています", " wants to share files"),
    )
}

/// "Receiving {file}".
pub fn receiving_status(language: InterfaceLanguage, file_name: &str) -> (r: String)
    ensures
        r@ == pick(language, ("正在接收 ", "", "Receiving "))@ + file_name@ + pick(language, ("", " を受信中", ""))@,
{
    around(language, ("正在接收 ", "", "Receiving "), file_name, ("", " を受信中", ""))
}

/// "Connection failed: {message}".
pub fn connection_failed_activity(language: InterfaceLanguage, message: &str) -> (r: String)
    ensures
        r@ == pick(language, ("連線失敗：", "接続に失敗しました：", "Connection failed: "))@ + message@ + pick(
            language,
            ("", "", ""),
        )@,
{
    around(language, ("連線失敗：", "接続に失敗しました：", "Connection failed: "), message, ("", "", ""))
}

/// "Received from {peer}: {paths}".
pub fn received_activity(language: InterfaceLanguage, peer_name: &str, paths: &str) -> (r: String)
    ensures
        r@ == pick(language, ("來自 ", "", "Received from "))@ + peer_name@ + pick(
            language,
            ("：", " から受信：", ": "),
        )@ + paths@,
{
    let mut s = around(language, ("來自 ", "", "Received from "), peer_name, ("：", " から受信：", ": "));
    s.append(paths);
    s
}

// ---------------------------------------------------------------------------
// Status lines with a count.
// ---------------------------------------------------------------------------

/// The English plural ending for a count: `s` unless the count is one.
pub open spec fn plural_s(language: InterfaceLanguage, count: nat) -> Seq<char> {
    if language == InterfaceLanguage::English && count != 1 {
        seq!['s']
    } else {
        Seq::empty()
    }
}

/// `before`, the count in decimal, `after`, and the plural ending where
/// `plural` asks for one.
fn counted(language: InterfaceLanguage, before: Phrase, count: u64, after: Phrase, plural: bool) -> (r: String)
    ensures
        r@ == pick(language, before)@ + decimal_text(count as nat) + pick(language, after)@ + (if plural {
            plural_s(language, count as nat)
        } else {
            Seq::empty()
        }),
{
    let mut s = String::from_str(pick_text(language, before));
    push_decimal(&mut s, count);
    s.append(pick_text(language, after));
    if plural && language == InterfaceLanguage::English && count != 1 {
        let ghost before_s = s@;
        s.append("s");
        proof {
            reveal_strlit("s");
            assert(s@ =~= before_s + plural_s(language, count as nat));
        }
    } else {
        assert(s@ =~= s@ + Seq::<char>::empty());
    }
    s
}

/// "{count} more item(s)".
pub fn more_items_label(language: InterfaceLanguage, count: usize) -> (r: String)
    ensures
        r@ == pick(language, ("另有 ", "ほか ", ""))@ + decimal_text(count as nat) + pick(
            language,
            (" 個項目", " 件", " more item"),
        )@ + plural_s(language, count as nat),
{
    counted(language, ("另有 ", "ほか ", ""), count as u64, (" 個項目", " 件", " more item"), true)
}

/// "Selected {count} item(s)".
pub fn selected_status(language: InterfaceLanguage, count: usize) -> (r: String)
    ensures
        r@ == pick(language, ("已選取 ", "", "Selected "))@ + decimal_text(count as nat) + pick(
            language,
            (" 個項目", " 件の項目を選択しました", " item"),
        )@ + plural_s(language, count as nat),
{
    counted(language, ("已選取 ", "", "Selected "), count as u64, (" 個項目", " 件の項目を選択しました", " item"), true)
}

/// "Sent {count} file(s)".
pub fn sent_activity(language: InterfaceLanguage, count: usize) -> (r: String)
    ensures
        r@ == pick(language, ("已傳送 ", "", "Sent "))@ + decimal_text(count as nat) + pick(
            language,
            (" 個檔案", " 件のファイルを送信しました", " file"),
        )@ + plural_s(language, count as nat),
{
    counted(language, ("已傳送 ", "", "Sent "), count as u64, (" 個檔案", " 件のファイルを送信しました", " file"), true)
}

/// "Receiving service ready · LAN TCP {port}".
pub fn listening_activity(language: InterfaceLanguage, port: u16) -> (r: String)
    ensures
        r@ == pick(
            language,
            ("接收服務已待命 · LAN TCP ", "受信サービス待機中 · LAN TCP ", "Receiving service ready · LAN TCP "),
        )@ + decimal_text(port as nat) + pick(language, ("", "", ""))@,
{
    let r = counted(
        language,
        ("接收服務已待命 · LAN TCP ", "受信サービス待機中 · LAN TCP ", "Receiving service ready · LAN TCP "),
        port as u64,
        ("", "", ""),
        false,
    );
    assert(r@ =~= pick(
        language,
        ("接收服務已待命 · LAN TCP ", "受信サービス待機中 · LAN TCP ", "Receiving service ready · LAN TCP "),
    )@ + decimal_text(port as nat) + pick(language, ("", "", ""))@);
    r
}

/// "{peer} wants to share {count} item(s). PIN {pin}".
pub fn incoming_notification(language: InterfaceLanguage, peer_name: &str, item_count: usize, pin: &str) -> (r: String)
    ensures
        r@ == peer_name@ + pick(language, (" 想傳送 ", " が ", " wants to share "))@ + decimal_text(item_count as nat)
            + pick(language, (" 個項目", " 件を共有しようとしています", " item"))@ + plural_s(language, item_count as nat)
            + pick(language, ("，核對碼 ", "。PIN ", ". PIN "))@ + pin@,
{
    let mut s = String::from_str(peer_name);
    let tail = counted(
        language,
        (" 想傳送 ", " が ", " wants to share "),
        item_count as u64,
        (" 個項目", " 件を共有しようとしています", " item"),
        true,
    );
    s.append(tail.as_str());
    s.append(pick_text(language, ("，核對碼 ", "。PIN ", ". PIN ")));
    s.append(pin);
    assert(s@ =~= peer_name@ + pick(language, (" 想傳送 ", " が ", " wants to share "))@ + decimal_text(
        item_count as nat,
    ) + pick(language, (" 個項目", " 件を共有しようとしています", " item"))@ + plural_s(language, item_count as nat)
        + pick(language, ("，核對碼 ", "。PIN ", ". PIN "))@ + pin@);
    s
}

/// The negotiation phases the sender reports, in the three languages.
pub open spec fn phase_names() -> Seq<Phrase> {
    seq![
        ("連線確認", "接続確認", "connection confirmation"),
        ("配對金鑰", "ペアリングキー", "pairing key"),
        ("檔案資訊", "ファイル情報", "file information"),
        ("第一次連線失敗，正在自動重試", "初回接続に失敗。自動再試行中", "first connection failed; retrying automatically"),
    ]
}

/// A phase in a language: its entry in [`phase_names`], or the phase as it came.
pub open spec fn phase_name(language: InterfaceLanguage, phase: Seq<char>) -> Seq<char> {
    if language == InterfaceLanguage::TraditionalChinese {
        phase
    } else {
        match find_phrase(phase_names(), phase, 0) {
            Some(k) => pick(language, phase_names()[k])@,
            None => phase,
        }
    }
}

/// A phase in a language, as [`phase_name`] says.
fn phase_text<'a>(language: InterfaceLanguage, phase: &'a str) -> (r: &'a str)
    ensures
        r@ == phase_name(language, phase@),
{
    if language == InterfaceLanguage::TraditionalChinese {
        return phase;
    }
    let names: Vec<Phrase> = vec![
        ("連線確認", "接続確認", "connection confirmation"),
        ("配對金鑰", "ペアリングキー", "pairing key"),
        ("檔案資訊", "ファイル情報", "file information"),
        ("第一次連線失敗，正在自動重試", "初回接続に失敗。自動再試行中", "first connection failed; retrying automatically"),
    ];
    assert(names@ =~= phase_names());
    let mut i: usize = 0;
    while i < names.len()
        invariant
            language != InterfaceLanguage::TraditionalChinese,
            names@ == phase_names(),
            i <= names@.len(),
            find_phrase(phase_names(), phase@, 0) == find_phrase(phase_names(), phase@, i as nat),
        decreases names@.len() - i,
    {
        let entry = names[i];
        if same_text(entry.0, phase) {
            return pick_text(language, entry);
        }
        i = i + 1;
    }
    phase
}

/// "Negotiating: {phase}…".
pub fn negotiating_status(language: InterfaceLanguage, phase: &str) -> (r: String)
    ensures
        r@ == pick(language, ("正在協商：", "ネゴシエーション中：", "Negotiating: "))@ + phase_name(language, phase@)
            + pick(language, ("…", "…", "…"))@,
{
    around(language, ("正在協商：", "ネゴシエーション中：", "Negotiating: "), phase_text(language, phase), ("…", "…", "…"))
}

// ---------------------------------------------------------------------------
// What a selection or an offer holds.
// ---------------------------------------------------------------------------

/// What follows the last `.` of a name, or the whole name if it has none.
pub open spec fn final_part(name: Seq<char>) -> Seq<char> {
    match last_dot(name) {
        Some(k) => name.subrange(k + 1, name.len() as int),
        None => name,
    }
}

/// A text with its ASCII letters in lower case.
pub open spec fn lowered(s: Seq<char>) -> Seq<char> {
    s.map_values(|c: char| ascii_lower(c))
}

/// The endings of picture files.
pub open spec fn image_ending(e: Seq<char>) -> bool {
    e == "jpg"@ || e == "jpeg"@ || e == "png"@ || e == "gif"@ || e == "webp"@ || e == "heic"@ || e == "heif"@
        || e == "bmp"@ || e == "tiff"@
}

/// The endings of video files.
pub open spec fn video_ending(e: Seq<char>) -> bool {
    e == "mp4"@ || e == "mov"@ || e == "mkv"@ || e == "webm"@ || e == "avi"@ || e == "m4v"@ || e == "3gp"@
}

/// Where the final part of a name starts.
fn final_part_start(name: &str) -> (r: usize)
    ensures
        r <= name@.len(),
        name@.subrange(r as int, name@.len() as int) == final_part(name@),
{
    let n = name.unicode_len();
    let mut k: usize = n;
    assert(name@.subrange(0, n as int) =~= name@);
    while k > 0 && name.get_char(k - 1) != '.'
        invariant
            n == name@.len(),
            k <= n,
            last_dot(name@) == last_dot(name@.subrange(0, k as int)),
        decreases k,
    {
        assert(name@.subrange(0, k as int).drop_last() =~= name@.subrange(0, k - 1));
        k = k - 1;
    }
    if k == 0 {
        assert(last_dot(name@.subrange(0, 0)) == None::<int>);
        assert(name@.subrange(0, n as int) =~= name@);
    } else {
        assert(last_dot(name@.subrange(0, k as int)) == Some(k - 1));
    }
    k
}

/// Whether a name ends in a picture ending (case does not matter).
pub fn is_image_text(name: &str) -> (r: bool)
    ensures
        r == image_ending(lowered(final_part(name@))),
{
    let from = final_part_start(name);
    lower_tail_is(name, from, "jpg") || lower_tail_is(name, from, "jpeg") || lower_tail_is(name, from, "png")
        || lower_tail_is(name, from, "gif") || lower_tail_is(name, from, "webp") || lower_tail_is(name, from, "heic")
        || lower_tail_is(name, from, "heif") || lower_tail_is(name, from, "bmp") || lower_tail_is(name, from, "tiff")
}

/// Whether a name ends in a video ending (case does not matter).
pub fn is_video_text(name: &str) -> (r: bool)
    ensures
        r == video_ending(lowered(final_part(name@))),
{
    let from = final_part_start(name);
    lower_tail_is(name, from, "mp4") || lower_tail_is(name, from, "mov") || lower_tail_is(name, from, "mkv")
        || lower_tail_is(name, from, "webm") || lower_tail_is(name, from, "avi") || lower_tail_is(name, from, "m4v")
        || lower_tail_is(name, from, "3gp")
}

/// A selected path as the send page sees it: whether it is a folder, and its
/// file name where it has one in UTF-8.
#[derive(Clone, Debug)]
pub struct SelectedPath {
    pub is_dir: bool,
    pub file_name: Option<String>,
}

/// Whether a selected path is named like a picture.
pub open spec fn image_path(p: SelectedPath) -> bool {
    p.file_name matches Some(n) && image_ending(lowered(final_part(n@)))
}

/// Whether a selected path is named like a video.
pub open spec fn video_path(p: SelectedPath) -> bool {
    p.file_name matches Some(n) && video_ending(lowered(final_part(n@)))
}

/// The noun for a selection: items if it holds a folder, pictures or videos
/// if every path is one, files otherwise.
pub open spec fn selection_noun(paths: Seq<SelectedPath>) -> Phrase {
    if exists|i: int| 0 <= i < paths.len() && #[trigger] paths[i].is_dir {
        ("項目", "項目", "item")
    } else if forall|i: int| 0 <= i < paths.len() ==> #[trigger] image_path(paths[i]) {
        ("圖片", "画像", "image")
    } else if forall|i: int| 0 <= i < paths.len() ==> #[trigger] video_path(paths[i]) {
        ("影片", "動画", "video")
    } else {
        ("檔案", "ファイル", "file")
    }
}

fn path_is_image(p: &SelectedPath) -> (r: bool)
    ensures
        r == image_path(*p),
{
    match &p.file_name {
        Some(n) => is_image_text(n.as_str()),
        None => false,
    }
}

fn path_is_video(p: &SelectedPath) -> (r: bool)
    ensures
        r == video_path(*p),
{
    match &p.file_name {
        Some(n) => is_video_text(n.as_str()),
        None => false,
    }
}

fn selection_noun_of(paths: &[SelectedPath]) -> (r: Phrase)
    ensures
        r == selection_noun(paths@),
{
    let mut any_dir = false;
    let mut all_images = true;
    let mut all_videos = true;
    let mut i: usize = 0;
    while i < paths.len()
        invariant
            i <= paths@.len(),
            any_dir == (exists|k: int| 0 <= k < i && #[trigger] paths@[k].is_dir),
            all_images == (forall|k: int| 0 <= k < i ==> #[trigger] image_path(paths@[k])),
            all_videos == (forall|k: int| 0 <= k < i ==> #[trigger] video_path(paths@[k])),
        decreases paths@.len() - i,
    {
        let p = &paths[i];
        if p.is_dir {
            any_dir = true;
        }
        if !path_is_image(p) {
            all_images = false;
        }
        if !path_is_video(p) {
            all_videos = false;
        }
        proof {
            if !any_dir {
                assert forall|k: int| 0 <= k < i + 1 implies !(#[trigger] paths@[k].is_dir) by {
                    if k == i {
                        assert(!p.is_dir);
                    }
                }
            }
        }
        i = i + 1;
    }
    if any_dir {
        ("項目", "項目", "item")
    } else if all_images {
        ("圖片", "画像", "image")
    } else if all_videos {
        ("影片", "動画", "video")
    } else {
        ("檔案", "ファイル", "file")
    }
}

/// "{count} {noun}(s)" for the paths selected for sending.
pub fn selected_kind(paths: &[SelectedPath], language: InterfaceLanguage) -> (r: String)
    ensures
        ({
            let noun = pick(language, selection_noun(paths@))@;
            let count = decimal_text(paths@.len());
            r@ == match language {
                InterfaceLanguage::TraditionalChinese => count + " 個"@ + noun,
                InterfaceLanguage::Japanese => noun + " "@ + count + " 件"@,
                InterfaceLanguage::English => count + " "@ + noun + plural_s(language, paths@.len()),
            }
        }),
{
    let noun = pick_text(language, selection_noun_of(paths));
    let count = paths.len();
    let mut s = String::new();
    match language {
        InterfaceLanguage::TraditionalChinese => {
            push_decimal(&mut s, count as u64);
            s.append(" 個");
            s.append(noun);
        },
        InterfaceLanguage::Japanese => {
            s.append(noun);
            s.append(" ");
            push_decimal(&mut s, count as u64);
            s.append(" 件");
        },
        InterfaceLanguage::English => {
            push_decimal(&mut s, count as u64);
            s.append(" ");
            s.append(noun);
            if count != 1 {
                s.append("s");
                proof { reveal_strlit("s"); }
            }
        },
    }
    assert(s@ =~= match language {
        InterfaceLanguage::TraditionalChinese => decimal_text(count as nat) + " 個"@ + noun@,
        InterfaceLanguage::Japanese => noun@ + " "@ + decimal_text(count as nat) + " 件"@,
        InterfaceLanguage::English => decimal_text(count as nat) + " "@ + noun@ + plural_s(language, count as nat),
    });
    s
}

/// The noun for an offer: pictures, videos or texts if every item is one,
/// files otherwise.
pub open spec fn offer_noun(items: Seq<TransferOfferItem>) -> Phrase {
    if forall|i: int| 0 <= i < items.len() ==> image_ending(lowered(final_part(#[trigger] items[i].name@))) {
        ("圖片", "画像", "image")
    } else if forall|i: int| 0 <= i < items.len() ==> video_ending(lowered(final_part(#[trigger] items[i].name@))) {
        ("影片", "動画", "video")
    } else if forall|i: int| 0 <= i < items.len() ==> #[trigger] items[i].is_text {
        ("文字", "テキスト", "text item")
    } else {
        ("檔案", "ファイル", "file")
    }
}

fn offer_noun_of(items: &[TransferOfferItem]) -> (r: Phrase)
    ensures
        r == offer_noun(items@),
{
    let mut all_images = true;
    let mut all_videos = true;
    let mut all_texts = true;
    let mut i: usize = 0;
    while i < items.len()
        invariant
            i <= items@.len(),
            all_images == (forall|k: int| 0 <= k < i ==> image_ending(lowered(final_part(#[trigger] items@[k].name@)))),
            all_videos == (forall|k: int| 0 <= k < i ==> video_ending(lowered(final_part(#[trigger] items@[k].name@)))),
            all_texts == (forall|k: int| 0 <= k < i ==> #[trigger] items@[k].is_text),
        decreases items@.len() - i,
    {
        let item = &items[i];
        if !is_image_text(item.name.as_str()) {
            all_images = false;
        }
        if !is_video_text(item.name.as_str()) {
            all_videos = false;
        }
        if !item.is_text {
            all_texts = false;
        }
        i = i + 1;
    }
    if all_images {
        ("圖片", "画像", "image")
    } else if all_videos {
        ("影片", "動画", "video")
    } else if all_texts {
        ("文字", "テキスト", "text item")
    } else {
        ("檔案", "ファイル", "file")
    }
}

/// "{count} {noun}(s) · {size}" for an incoming offer, with its total size
/// already written out as `size_text`.
pub fn offer_summary(items: &[TransferOfferItem], language: InterfaceLanguage, size_text: &str) -> (r: String)
    ensures
        ({
            let noun = pick(language, offer_noun(items@))@;
            let count = decimal_text(items@.len());
            r@ == match language {
                InterfaceLanguage::TraditionalChinese => count + " 個"@ + noun + " · "@ + size_text@,
                InterfaceLanguage::Japanese => noun + " "@ + count + " 件 · "@ + size_text@,
                InterfaceLanguage::English => count + " "@ + noun + plural_s(language, items@.len()) + " · "@
                    + size_text@,
            }
        }),
{
    let noun = pick_text(language, offer_noun_of(items));
    let count = items.len();
    let mut s = String::new();
    match language {
        InterfaceLanguage::TraditionalChinese => {
            push_decimal(&mut s, count as u64);
            s.append(" 個");
            s.append(noun);
            s.append(" · ");
        },
        InterfaceLanguage::Japanese => {
            s.append(noun);
            s.append(" ");
            push_decimal(&mut s, count as u64);
            s.append(" 件 · ");
        },
        InterfaceLanguage::English => {
            push_decimal(&mut s, count as u64);
            s.append(" ");
            s.append(noun);
            if count != 1 {
                s.append("s");
                proof { reveal_strlit("s"); }
            }
            s.append(" · ");
        },
    }
    s.append(size_text);
    assert(s@ =~= match language {
        InterfaceLanguage::TraditionalChinese => decimal_text(count as nat) + " 個"@ + noun@ + " · "@ + size_text@,
        InterfaceLanguage::Japanese => noun@ + " "@ + decimal_text(count as nat) + " 件 · "@ + size_text@,
        InterfaceLanguage::English => decimal_text(count as nat) + " "@ + noun@ + plural_s(language, count as nat)
            + " · "@ + size_text@,
    });
    s
}

// ---------------------------------------------------------------------------
// Why a send failed, for the user.
// ---------------------------------------------------------------------------

/// What the send page says about a failed send: its own sentence for a
/// rejection, a QR timeout, a disconnection and a selection over the size
/// limit; the error's description otherwise.
pub open spec fn send_failure_text(language: InterfaceLanguage, error: QuickShareSendError) -> Seq<char> {
    match error {
        QuickShareSendError::Rejected => pick(
            language,
            ("接收端已拒絕這次傳送。", "受信側が今回の送信を拒否しました。", "The receiver declined this transfer."),
        )@,
        QuickShareSendError::Qr(QuickShareQrError::TimedOut) => pick(
            language,
            (
                "等待掃描已逾時，請重新顯示 QR code。",
                "スキャン待機がタイムアウトしました。QR コードを表示し直してください。",
                "The scan timed out. Show a new QR code and try again.",
            ),
        )@,
        QuickShareSendError::Protocol(m) if has_run(m@, "disconnected"@) => pick(
            language,
            (
                "接收端已中斷連線。請保持 Quick Share 畫面開啟後重試。",
                "受信側との接続が切れました。Quick Share 画面を開いたまま再試行してください。",
                "The receiver disconnected. Keep its Quick Share screen open and try again.",
            ),
        )@,
        QuickShareSendError::TransferTooLarge => pick(
            language,
            (
                "選取內容超過 100 GiB 安全上限。",
                "選択内容が 100 GiB の上限を超えています。",
                "The selection exceeds the 100 GiB safety limit.",
            ),
        )@,
        _ => send_error_text(error),
    }
}

/// The user's sentence for a failed send, as [`send_failure_text`] says.
pub fn send_error_message(language: InterfaceLanguage, error: &QuickShareSendError) -> (r: String)
    ensures
        r@ == send_failure_text(language, *error),
{
    match error {
        QuickShareSendError::Rejected => String::from_str(
            pick_text(
                language,
                ("接收端已拒絕這次傳送。", "受信側が今回の送信を拒否しました。", "The receiver declined this transfer."),
            ),
        ),
        QuickShareSendError::Qr(QuickShareQrError::TimedOut) => String::from_str(
            pick_text(
                language,
                (
                    "等待掃描已逾時，請重新顯示 QR code。",
                    "スキャン待機がタイムアウトしました。QR コードを表示し直してください。",
                    "The scan timed out. Show a new QR code and try again.",
                ),
            ),
        ),
        QuickShareSendError::Protocol(m) => {
            if contains_text(m, "disconnected") {
                String::from_str(
                    pick_text(
                        language,
                        (
                            "接收端已中斷連線。請保持 Quick Share 畫面開啟後重試。",
                            "受信側との接続が切れました。Quick Share 画面を開いたまま再試行してください。",
                            "The receiver disconnected. Keep its Quick Share screen open and try again.",
                        ),
                    ),
                )
            } else {
                error.describe()
            }
        },
        QuickShareSendError::TransferTooLarge => String::from_str(
            pick_text(
                language,
                (
                    "選取內容超過 100 GiB 安全上限。",
                    "選択内容が 100 GiB の上限を超えています。",
                    "The selection exceeds the 100 GiB safety limit.",
                ),
            ),
        ),
        _ => error.describe(),
    }
}

// ---------------------------------------------------------------------------
// The send page's status line.
// ---------------------------------------------------------------------------

/// What the send page shows for each step of a send.
pub open spec fn send_progress_text(language: InterfaceLanguage, progress: QuickShareSendProgress) -> Seq<char> {
    match progress {
        QuickShareSendProgress::WaitingForQrScan => localized(language, "等待手機掃描 QR code…"@),
        QuickShareSendProgress::PhoneFound { name } => pick(language, ("已找到 ", "", "Found "))@ + name@ + pick(
            language,
            ("", " が見つかりました", ""),
        )@,
        QuickShareSendProgress::Connecting => localized(language, "正在建立端對端加密連線…"@),
        QuickShareSendProgress::Negotiating { phase } => pick(
            language,
            ("正在協商：", "ネゴシエーション中：", "Negotiating: "),
        )@ + phase_name(language, phase@) + pick(language, ("…", "…", "…"))@,
        QuickShareSendProgress::VerificationPin { pin } => pick(language, ("驗證碼 ", "PIN ", "PIN "))@ + pin@ + pick(
            language,
            (" · 請在接收裝置核對", " · 受信端末で確認してください", " · verify it on the receiving device"),
        )@,
        QuickShareSendProgress::WaitingForAcceptance => localized(language, "等待手機接受傳送…"@),
        QuickShareSendProgress::Finalizing => localized(language, "資料已送達，等待接收端完成寫入…"@),
        QuickShareSendProgress::Sending { file_name, .. } => pick(language, ("正在傳送 ", "", "Sending "))@
            + file_name@ + pick(language, ("", " を送信中", ""))@,
        QuickShareSendProgress::Complete => localized(language, "傳送完成"@),
    }
}

/// The send page's status line for a step of a send, as
/// [`send_progress_text`] says.
pub fn send_progress_status(language: InterfaceLanguage, progress: &QuickShareSendProgress) -> (r: String)
    ensures
        r@ == send_progress_text(language, *progress),
{
    match progress {
        QuickShareSendProgress::WaitingForQrScan => String::from_str(tr(language, "等待手機掃描 QR code…")),
        QuickShareSendProgress::PhoneFound { name } => found_status(language, name.as_str()),
        QuickShareSendProgress::Connecting => String::from_str(tr(language, "正在建立端對端加密連線…")),
        QuickShareSendProgress::Negotiating { phase } => negotiating_status(language, phase),
        QuickShareSendProgress::VerificationPin { pin } => pin_status(language, pin.as_str()),
        QuickShareSendProgress::WaitingForAcceptance => String::from_str(tr(language, "等待手機接受傳送…")),
        QuickShareSendProgress::Finalizing => String::from_str(tr(language, "資料已送達，等待接收端完成寫入…")),
        QuickShareSendProgress::Sending { file_name, .. } => sending_status(language, file_name.as_str()),
        QuickShareSendProgress::Complete => String::from_str(tr(language, "傳送完成")),
    }
}

// ---------------------------------------------------------------------------
// The board's statuses and log lines.
// ---------------------------------------------------------------------------

/// A value between the two parts of a phrase.
pub open spec fn around_text(language: InterfaceLanguage, before: Phrase, value: Seq<char>, after: Phrase) -> Seq<char> {
    pick(language, before)@ + value + pick(language, after)@
}

/// A count between the two parts of a phrase, with the English plural.
pub open spec fn counted_text(language: InterfaceLanguage, before: Phrase, count: nat, after: Phrase) -> Seq<char> {
    pick(language, before)@ + decimal_text(count) + pick(language, after)@ + plural_s(language, count)
}

/// The receiving service's status line.
pub open spec fn receive_status_words(language: InterfaceLanguage, status: ReceiveStatus) -> Seq<char> {
    match status {
        ReceiveStatus::NotStarted => localized(language, "接收服務尚未啟動"@),
        ReceiveStatus::InvalidName => localized(language, "裝置名稱必須是 1–255 UTF-8 bytes"@),
        ReceiveStatus::MissingDirectory => localized(language, "請選擇接收資料夾"@),
        ReceiveStatus::Starting => localized(language, "正在啟動接收服務…"@),
        ReceiveStatus::Stopping => localized(language, "正在停止…"@),
        ReceiveStatus::Listening => localized(language, "可被 Android 原生 Quick Share 找到"@),
        ReceiveStatus::Incoming { peer_name } => around_text(
            language,
            ("", "", ""),
            peer_name@,
            (" 想傳送檔案", " がファイルを共有しようとしています", " wants to share files"),
        ),
        ReceiveStatus::Accepted => localized(language, "正在接收檔案…"@),
        ReceiveStatus::Declined => localized(language, "已拒絕，繼續待命"@),
        ReceiveStatus::Receiving { file_name } => around_text(
            language,
            ("正在接收 ", "", "Receiving "),
            file_name@,
            ("", " を受信中", ""),
        ),
        ReceiveStatus::Received => localized(language, "接收完成，繼續待命"@),
        ReceiveStatus::ConnectionFailed => localized(language, "上一筆連線失敗，仍在待命"@),
        ReceiveStatus::Stopped => localized(language, "接收服務已停止"@),
    }
}

/// A line of the activity log.
pub open spec fn activity_words(language: InterfaceLanguage, activity: Activity) -> Seq<char> {
    match activity {
        Activity::Listening { port } => pick(
            language,
            ("接收服務已待命 · LAN TCP ", "受信サービス待機中 · LAN TCP ", "Receiving service ready · LAN TCP "),
        )@ + decimal_text(port as nat) + pick(language, ("", "", ""))@,
        Activity::ConcurrentReject { peer_name } => around_text(
            language,
            ("已拒絕來自 ", "", "Declined a simultaneous request from "),
            peer_name@,
            (
                " 的同時傳送要求：目前正等待另一筆確認",
                " からの同時リクエストを拒否：別の確認を待機中です",
                ": another confirmation is pending",
            ),
        ),
        Activity::Received { peer_name, paths } => around_text(
            language,
            ("來自 ", "", "Received from "),
            peer_name@,
            ("：", " から受信：", ": "),
        ) + paths@,
        Activity::ConnectionFailed { message } => around_text(
            language,
            ("連線失敗：", "接続に失敗しました：", "Connection failed: "),
            message@,
            ("", "", ""),
        ),
        Activity::Sent { count } => counted_text(
            language,
            ("已傳送 ", "", "Sent "),
            count as nat,
            (" 個檔案", " 件のファイルを送信しました", " file"),
        ),
        Activity::SendFailed { message } => around_text(
            language,
            ("傳送失敗：", "送信に失敗しました：", "Transfer failed: "),
            message@,
            ("", "", ""),
        ),
    }
}

/// The send's status line.
pub open spec fn send_status_words(language: InterfaceLanguage, status: SendStatus) -> Seq<char> {
    match status {
        SendStatus::NothingSelected => localized(language, "選取檔案後即可傳送"@),
        SendStatus::Selected { count } => counted_text(
            language,
            ("已選取 ", "", "Selected "),
            count as nat,
            (" 個項目", " 件の項目を選択しました", " item"),
        ),
        SendStatus::QrUnavailable { message } => message@,
        SendStatus::QrCodeFailed { message } => around_text(
            language,
            ("無法產生 QR：", "QR を生成できません：", "Could not generate QR: "),
            message@,
            ("", "", ""),
        ),
        SendStatus::AwaitingScan => localized(language, "請用手機相機或 Quick Share 掃描 QR code"@),
        SendStatus::QrCancelled => localized(language, "已取消 QR，可修改檔案或選擇其他裝置"@),
        SendStatus::NoAddress => localized(language, "裝置沒有可用的內網位址"@),
        SendStatus::Connecting { device_name } => around_text(
            language,
            ("正在連接 ", "", "Connecting to "),
            device_name@,
            ("…", " に接続中…", "…"),
        ),
        SendStatus::Progress(progress) => send_progress_text(language, progress),
        SendStatus::Failed { message } => around_text(
            language,
            ("傳送失敗：", "送信に失敗しました：", "Transfer failed: "),
            message@,
            ("", "", ""),
        ),
    }
}

/// The receiving service's status line in a language.
pub fn receive_status_text(language: InterfaceLanguage, status: &ReceiveStatus) -> (r: String)
    ensures
        r@ == receive_status_words(language, *status),
{
    match status {
        ReceiveStatus::NotStarted => String::from_str(tr(language, "接收服務尚未啟動")),
        ReceiveStatus::InvalidName => String::from_str(tr(language, "裝置名稱必須是 1–255 UTF-8 bytes")),
        ReceiveStatus::MissingDirectory => String::from_str(tr(language, "請選擇接收資料夾")),
        ReceiveStatus::Starting => String::from_str(tr(language, "正在啟動接收服務…")),
        ReceiveStatus::Stopping => String::from_str(tr(language, "正在停止…")),
        ReceiveStatus::Listening => String::from_str(tr(language, "可被 Android 原生 Quick Share 找到")),
        ReceiveStatus::Incoming { peer_name } => incoming_status(language, peer_name.as_str()),
        ReceiveStatus::Accepted => String::from_str(tr(language, "正在接收檔案…")),
        ReceiveStatus::Declined => String::from_str(tr(language, "已拒絕，繼續待命")),
        ReceiveStatus::Receiving { file_name } => receiving_status(language, file_name.as_str()),
        ReceiveStatus::Received => String::from_str(tr(language, "接收完成，繼續待命")),
        ReceiveStatus::ConnectionFailed => String::from_str(tr(language, "上一筆連線失敗，仍在待命")),
        ReceiveStatus::Stopped => String::from_str(tr(language, "接收服務已停止")),
    }
}

/// A line of the activity log in a language.
pub fn activity_text(language: InterfaceLanguage, activity: &Activity) -> (r: String)
    ensures
        r@ == activity_words(language, *activity),
{
    match activity {
        Activity::Listening { port } => listening_activity(language, *port),
        Activity::ConcurrentReject { peer_name } => concurrent_reject_activity(language, peer_name.as_str()),
        Activity::Received { peer_name, paths } => received_activity(language, peer_name.as_str(), paths.as_str()),
        Activity::ConnectionFailed { message } => connection_failed_activity(language, message.as_str()),
        Activity::Sent { count } => sent_activity(language, *count),
        Activity::SendFailed { message } => failed_status(language, message.as_str()),
    }
}

/// The send's status line in a language.
pub fn send_status_text(language: InterfaceLanguage, status: &SendStatus) -> (r: String)
    ensures
        r@ == send_status_words(language, *status),
{
    match status {
        SendStatus::NothingSelected => String::from_str(tr(language, "選取檔案後即可傳送")),
        SendStatus::Selected { count } => selected_status(language, *count),
        SendStatus::QrUnavailable { message } => message.clone(),
        SendStatus::QrCodeFailed { message } => qr_error_status(language, message.as_str()),
        SendStatus::AwaitingScan => String::from_str(tr(language, "請用手機相機或 Quick Share 掃描 QR code")),
        SendStatus::QrCancelled => String::from_str(tr(language, "已取消 QR，可修改檔案或選擇其他裝置")),
        SendStatus::NoAddress => String::from_str(tr(language, "裝置沒有可用的內網位址")),
        SendStatus::Connecting { device_name } => connecting_status(language, device_name.as_str()),
        SendStatus::Progress(progress) => send_progress_status(language, progress),
        SendStatus::Failed { message } => failed_status(language, message.as_str()),
    }
}

} // verus!
